//! The stack machine: decoding, dispatch, skill frames and event emission.
use crate::event::{normalize_depth, Event, VMError};
use crate::intuition::{build_context, pattern_match, ContextSnapshot, PatternBook, GATE_THIRTIETHS};
use crate::memory::MemorySystem;
use crate::number::{
    decode_cell, decoded, greater_than, is_finite, is_negative, is_zero, number_gt, target_index,
    ONE_BITS,
};
use crate::op::{
    branches, decode_ops_for_validation, delta_of, immediates_of, inputs_of, logic_of, op_of,
    required_of, validate_ops, Op, SKILL_OPCODE_BASE,
};
use crate::skills::SkillLibrary;
use crate::value::{truthy, value_eq, UVal};
use vstd::prelude::*;

verus! {

/// How many recent opcodes the machine remembers.
pub const RECENT_OPCODES: usize = 6;

/// Events held in the trace before it is handed to the host unasked.
pub const TRACE_CAPACITY: usize = 512;

/// Reward points that one `Reward` opcode earns.
pub const REWARD_POINTS: u64 = 100;

/// A binary64 operation that the host carries out.
#[derive(Clone, Copy, Debug, PartialEq, Eq, Structural)]
pub enum ArithOp {
    Add,
    Sub,
    Mul,
    Rem,
}

/// How a skill invocation went, reported when its frame is restored.
#[derive(Clone, Copy, Debug, PartialEq, Eq, Structural)]
pub struct SkillOutcome {
    pub success: bool,
    pub reward_delta: u64,
    pub stack_match_after: bool,
    pub used_tick: u64,
}

/// A skill that passed the pattern gate, with its pattern score in thirtieths.
#[derive(Clone, Copy, Debug, PartialEq, Eq, Structural)]
pub struct SkillCandidate {
    pub skill_id: i64,
    pub pattern_score: u8,
}

/// What the machine needs from the program that embeds it: binary64
/// arithmetic on bit patterns, parsing of numbers, the choice among gated
/// skills, and a sink for its events.
pub trait Host {
    fn arith(&mut self, op: ArithOp, a: u64, b: u64) -> u64;

    fn parse_number(&mut self, text: &String) -> Option<u64>;

    fn select_skill(
        &mut self,
        ctx: &ContextSnapshot,
        candidates: &Vec<SkillCandidate>,
        tick: u64,
    ) -> Option<i64>;

    fn skill_finished(&mut self, skill_id: i64, outcome: SkillOutcome);

    fn observe_batch(&mut self, events: Vec<Event>);
}

#[derive(Clone, Copy, Debug)]
pub struct SkillInvocation {
    pub skill_id: i64,
    pub reward_before: u64,
    pub errors_before: u64,
    pub expected_depth_min: u8,
}

/// A saved program, to be resumed when the skill that replaced it ends.
#[derive(Debug)]
pub struct ProgramFrame {
    pub program: Vec<u64>,
    pub ip: usize,
    pub skill_invocation: Option<SkillInvocation>,
}

pub struct SoulGainVM {
    pub program: Vec<u64>,
    pub stack: Vec<UVal>,
    pub call_stack: Vec<usize>,
    pub program_stack: Vec<ProgramFrame>,
    pub ip: usize,
    pub memory: MemorySystem,
    pub last_event: Option<Event>,
    pub skills: SkillLibrary,
    pub patterns: PatternBook,
    pub trace: Vec<Event>,
    pub recent_opcodes: Vec<i64>,
    pub tick: u64,
    pub total_reward: u64,
    pub error_count: u64,
    /// Whether the last `run` ended on a top-level halt.
    pub halted: bool,
    /// Every event recorded so far, in order.
    pub log: Ghost<Seq<Event>>,
}

pub open spec fn sat_add(a: u64, n: int) -> u64 {
    if a + n > u64::MAX {
        u64::MAX
    } else {
        (a + n) as u64
    }
}

/// `b` is `a` followed by more events.
pub open spec fn extends(a: Seq<Event>, b: Seq<Event>) -> bool {
    a.len() <= b.len() && forall|i: int| 0 <= i < a.len() ==> #[trigger] b[i] == a[i]
}

/// No event after the first `a.len()` of `b` is an error.
pub open spec fn no_error_since(a: Seq<Event>, b: Seq<Event>) -> bool {
    forall|i: int| a.len() <= i < b.len() ==> !(#[trigger] b[i] is Error)
}

/// The stack that an opcode leaves when its result needs nothing from the
/// host and it records no error; `None` for the other opcodes. `cell` is
/// the cell after the opcode, the operand of `Literal`.
pub open spec fn pure_effect(op: Op, stack: Seq<UVal>, cell: u64) -> Option<Seq<UVal>> {
    let n = stack.len() as int;
    match op {
        Op::Literal => Some(stack.push(UVal::Number(cell))),
        Op::Eq => Some(
            stack.drop_last().drop_last().push(UVal::Bool(value_eq(stack[n - 2], stack[n - 1]))),
        ),
        Op::And => Some(
            stack.drop_last().drop_last().push(
                UVal::Bool(truthy(stack[n - 2]) && truthy(stack[n - 1])),
            ),
        ),
        Op::Or => Some(
            stack.drop_last().drop_last().push(
                UVal::Bool(truthy(stack[n - 2]) || truthy(stack[n - 1])),
            ),
        ),
        Op::Xor => Some(
            stack.drop_last().drop_last().push(
                UVal::Bool(truthy(stack[n - 2]) != truthy(stack[n - 1])),
            ),
        ),
        Op::Gt => match (stack[n - 2], stack[n - 1]) {
            (UVal::Number(x), UVal::Number(y)) => Some(
                stack.drop_last().drop_last().push(UVal::Bool(number_gt(x, y))),
            ),
            _ => None,
        },
        Op::Not | Op::IsZero => Some(stack.drop_last().push(UVal::Bool(!truthy(stack[n - 1])))),
        Op::Swap => Some(stack.drop_last().drop_last().push(stack[n - 1]).push(stack[n - 2])),
        Op::Dup => Some(stack.push(stack[n - 1])),
        Op::Over => Some(stack.push(stack[n - 2])),
        Op::Drop => Some(stack.drop_last()),
        _ => None,
    }
}

/// Where a jump to cell `target` lands in a program of `len` cells: `Ok`
/// with the index when the target is finite, not negative and inside the
/// program, else the payload of the `InvalidJump` error.
pub open spec fn jump_spec(len: nat, target: u64) -> Result<usize, i64> {
    if !crate::number::is_finite_bits(target) || (crate::number::is_negative_bits(target)
        && !crate::number::is_zero_bits(target)) {
        Err(-1i64)
    } else {
        let m: nat = if crate::number::rounded_magnitude(target) >= 0x8000_0000_0000_0000 {
            0x8000_0000_0000_0000
        } else {
            crate::number::rounded_magnitude(target)
        };
        if m >= len {
            if m >= 0x8000_0000_0000_0000 {
                Err(i64::MAX)
            } else {
                Err(m as i64)
            }
        } else {
            Ok(m as usize)
        }
    }
}

/// The skill id that `Evolve` reads from a value: its decoded number, or
/// -1 when it is not a number that decodes.
pub open spec fn evolve_id(v: UVal) -> i64 {
    match v {
        UVal::Number(bits) => match decoded(bits) {
            Some(n) => n,
            None => -1i64,
        },
        _ => -1i64,
    }
}

/// Whether the running program may become a skill.
pub open spec fn evolvable(program: Seq<u64>) -> bool {
    match crate::op::program_ops(program) {
        Some(ops) => crate::op::valid_body(ops),
        None => false,
    }
}

impl SoulGainVM {
    /// The cell at `ip`, or zero past the end.
    pub open spec fn cell_at_ip(&self) -> u64 {
        if self.ip < self.program@.len() {
            self.program@[self.ip as int]
        } else {
            0
        }
    }

    /// What `Store` and `Load` do with a numeric address: `Store` writes the
    /// top value at the address below it (nothing at a non-finite address),
    /// `Load` replaces the address with the value stored there, or `Nil`.
    pub open spec fn memory_effect(a: &Self, b: &Self, op: Op) -> bool {
        let n = a.stack@.len() as int;
        &&& (op == Op::Store && n >= 2 && a.stack@[n - 2] is Number) ==> b.memory@ == ({
            let addr = a.stack@[n - 2]->Number_0;
            if crate::number::is_finite_bits(addr) {
                a.memory@.insert(crate::number::quantized(addr), a.stack@[n - 1])
            } else {
                a.memory@
            }
        })
        &&& (op == Op::Load && n >= 1 && a.stack@[n - 1] is Number) ==> b.stack@ == a.stack@.drop_last().push(
            match a.memory.read_spec(a.stack@[n - 1]->Number_0) {
                Some(v) => v,
                None => UVal::Nil,
            },
        )
    }

    /// Program, call stack, frames, memory, skills and reward as in `a`.
    pub open spec fn keeps(a: &Self, b: &Self) -> bool {
        &&& b.program == a.program
        &&& b.call_stack == a.call_stack
        &&& b.program_stack == a.program_stack
        &&& b.memory == a.memory
        &&& b.skills == a.skills
        &&& b.total_reward == a.total_reward
    }

    /// The events after `base` are exactly `extra`, none of them an error,
    /// and the error count is unchanged.
    pub open spec fn emits(a: &Self, b: &Self, base: Seq<Event>, extra: Seq<Event>) -> bool {
        &&& b.log@.len() == base.len() + extra.len()
        &&& forall|i: int| 0 <= i < base.len() ==> #[trigger] b.log@[i] == base[i]
        &&& forall|j: int| 0 <= j < extra.len() ==> #[trigger] b.log@[base.len() + j] == extra[j]
        &&& b.error_count == a.error_count
    }

    /// After `base` comes exactly the error `e`, counted.
    pub open spec fn fails(a: &Self, b: &Self, base: Seq<Event>, e: VMError) -> bool {
        b.log@ == base.push(Event::Error(e)) && b.error_count == sat_add(a.error_count, 1)
    }

    /// The current program ends: the innermost frame is resumed when there is
    /// one (`r`), else the machine stops with program and `ip` as they were.
    pub open spec fn ends_frame(a: &Self, b: &Self, r: bool) -> bool {
        &&& r == (a.program_stack@.len() > 0)
        &&& r ==> b.program_stack@ == a.program_stack@.drop_last() && b.program
            == a.program_stack@.last().program && b.ip == a.program_stack@.last().ip
        &&& !r ==> b.program == a.program && b.ip == a.ip && b.program_stack@.len() == 0
        &&& b.stack == a.stack
        &&& b.call_stack == a.call_stack
        &&& b.memory == a.memory
        &&& b.skills == a.skills
        &&& b.total_reward == a.total_reward
    }

    /// What opcode `op` does from `a` (its opcode cell already read and, when
    /// its delta allows, its `Opcode` event recorded, ending `base`) to `b`,
    /// returning `r`.
    pub open spec fn semantics(a: &Self, b: &Self, op: Op, r: bool, base: Seq<Event>) -> bool {
        let st = a.stack@;
        let n = st.len() as int;
        let code = crate::op::code_of(op);
        let has_cell = a.ip < a.program@.len();
        let cell = a.cell_at_ip();
        match op {
            Op::Eq | Op::And | Op::Or | Op::Xor | Op::Gt | Op::Add | Op::Sub | Op::Mul | Op::Mod => {
                &&& r && Self::keeps(a, b) && b.ip == a.ip
                &&& n < 2 ==> b.stack == a.stack && Self::fails(a, b, base, VMError::StackUnderflow)
                &&& n >= 2 ==> {
                    let (x, y) = (st[n - 2], st[n - 1]);
                    let rest = st.drop_last().drop_last();
                    if op == Op::Eq || op == Op::And || op == Op::Or || op == Op::Xor || (op
                        == Op::Gt && x is Number && y is Number) {
                        b.stack@ == pure_effect(op, st, cell)->0 && Self::emits(a, b, base, seq![])
                    } else if op != Op::Gt && x is Number && y is Number {
                        b.stack@.len() == n - 1 && b.stack@.drop_last() == rest
                            && b.stack@.last() is Number && Self::emits(a, b, base, seq![])
                    } else if op == Op::Add && x is String && y is String {
                        b.stack@.len() == n - 1 && b.stack@.drop_last() == rest
                            && b.stack@.last() is String && b.stack@.last()->String_0@ == x->String_0@
                            + y->String_0@ && Self::emits(a, b, base, seq![])
                    } else {
                        b.stack@ == rest && Self::fails(a, b, base, VMError::InvalidOpcode(code))
                    }
                }
            },
            Op::Not | Op::IsZero | Op::Inc | Op::Dec | Op::Parse => {
                &&& r && Self::keeps(a, b) && b.ip == a.ip
                &&& n < 1 ==> b.stack == a.stack && Self::fails(a, b, base, VMError::StackUnderflow)
                &&& n >= 1 ==> {
                    let x = st[n - 1];
                    let rest = st.drop_last();
                    if op == Op::Not || op == Op::IsZero {
                        b.stack@ == pure_effect(op, st, cell)->0 && Self::emits(a, b, base, seq![])
                    } else if op == Op::Parse {
                        b.stack@.len() == n && b.stack@.drop_last() == rest && Self::emits(
                            a,
                            b,
                            base,
                            seq![],
                        ) && (x is Number ==> b.stack@.last() == x) && (x is String
                            ==> b.stack@.last() is Number || b.stack@.last() is Nil) && (!(
                        x is Number) && !(x is String) ==> b.stack@.last() == UVal::Nil)
                    } else if x is Number {
                        b.stack@.len() == n && b.stack@.drop_last() == rest
                            && b.stack@.last() is Number && Self::emits(a, b, base, seq![])
                    } else {
                        b.stack@ == rest && Self::fails(a, b, base, VMError::InvalidOpcode(code))
                    }
                }
            },
            Op::Swap | Op::Dup | Op::Over | Op::Drop => {
                &&& r && Self::keeps(a, b) && b.ip == a.ip
                &&& n < crate::op::inputs_of(op) ==> b.stack == a.stack && Self::fails(
                    a,
                    b,
                    base,
                    VMError::StackUnderflow,
                )
                &&& n >= crate::op::inputs_of(op) ==> b.stack@ == pure_effect(op, st, cell)->0
                    && Self::emits(a, b, base, seq![])
            },
            Op::Store | Op::Load => {
                &&& r && b.ip == a.ip && b.program == a.program && b.call_stack == a.call_stack
                    && b.program_stack == a.program_stack && b.skills == a.skills
                    && b.total_reward == a.total_reward
                &&& op == Op::Load ==> b.memory == a.memory
                &&& Self::memory_effect(a, b, op)
                &&& op == Op::Load && n < 1 ==> b.stack == a.stack && Self::fails(
                    a,
                    b,
                    base,
                    VMError::StackUnderflow,
                )
                &&& op == Op::Load && n >= 1 && st[n - 1] is Number ==> Self::emits(
                    a,
                    b,
                    base,
                    if a.memory.read_spec(st[n - 1]->Number_0) is Some {
                        seq![Event::MemoryRead]
                    } else {
                        seq![]
                    },
                )
                &&& op == Op::Load && n >= 1 && !(st[n - 1] is Number) ==> b.stack@
                    == st.drop_last() && Self::fails(a, b, base, VMError::InvalidOpcode(code))
                &&& op == Op::Store && n >= 2 ==> b.stack@ == st.drop_last().drop_last()
                &&& op == Op::Store && n >= 2 && st[n - 2] is Number ==> Self::emits(
                    a,
                    b,
                    base,
                    if crate::number::is_finite_bits(st[n - 2]->Number_0) {
                        seq![Event::MemoryWrite]
                    } else {
                        seq![]
                    },
                )
                &&& op == Op::Store && n >= 2 && !(st[n - 2] is Number) ==> b.memory == a.memory
                    && Self::fails(a, b, base, VMError::InvalidOpcode(code))
            },
            Op::Literal | Op::Jmp | Op::JmpIf | Op::Call => {
                &&& !has_cell ==> Self::ends_frame(a, b, r) && (if op == Op::JmpIf {
                    Self::fails(a, b, base, VMError::InvalidJump(-1i64))
                } else {
                    Self::emits(a, b, base, seq![])
                })
                &&& has_cell ==> r && b.program == a.program && b.program_stack
                    == a.program_stack && b.memory == a.memory && b.skills == a.skills
                    && b.total_reward == a.total_reward
                &&& has_cell && op == Op::Literal ==> b.stack@ == st.push(UVal::Number(cell))
                    && b.ip == a.ip + 1 && b.call_stack == a.call_stack && Self::emits(
                    a,
                    b,
                    base,
                    seq![],
                )
                &&& has_cell && op != Op::Literal ==> {
                    let taken = op != Op::JmpIf || truthy(st[n - 1]);
                    &&& b.stack@ == (if op == Op::JmpIf {
                        st.drop_last()
                    } else {
                        st
                    })
                    &&& !taken ==> b.ip == a.ip + 1 && b.call_stack == a.call_stack
                        && Self::emits(a, b, base, seq![])
                    &&& taken ==> match jump_spec(a.program@.len(), cell) {
                        Ok(idx) => b.ip == idx && Self::emits(a, b, base, seq![]) && b.call_stack@
                            == (if op == Op::Call {
                            a.call_stack@.push((a.ip + 1) as usize)
                        } else {
                            a.call_stack@
                        }),
                        Err(e) => b.ip == a.ip + 1 && b.call_stack == a.call_stack
                            && Self::fails(a, b, base, VMError::InvalidJump(e)),
                    }
                }
            },
            Op::Halt => Self::ends_frame(a, b, r) && Self::emits(a, b, base, seq![]),
            Op::Ret => {
                &&& r && b.stack == a.stack && b.program == a.program && b.program_stack
                    == a.program_stack && b.memory == a.memory && b.skills == a.skills
                    && b.total_reward == a.total_reward
                &&& a.call_stack@.len() == 0 ==> b.ip == a.ip && b.call_stack@ == a.call_stack@
                    && Self::fails(a, b, base, VMError::ReturnStackUnderflow)
                &&& a.call_stack@.len() > 0 ==> {
                    let ret = a.call_stack@.last();
                    &&& b.call_stack@ == a.call_stack@.drop_last()
                    &&& ret <= a.program@.len() ==> b.ip == ret && Self::emits(a, b, base, seq![])
                    &&& ret > a.program@.len() ==> b.ip == a.ip && Self::fails(
                        a,
                        b,
                        base,
                        VMError::InvalidJump(crate::number::clamp_i64(ret as int)),
                    )
                }
            },
            Op::Reward => {
                &&& r && b.stack == a.stack && b.ip == a.ip && b.program == a.program
                    && b.call_stack == a.call_stack && b.program_stack == a.program_stack
                    && b.memory == a.memory && b.skills == a.skills
                &&& b.total_reward == sat_add(a.total_reward, REWARD_POINTS as int)
                &&& Self::emits(a, b, base, seq![Event::Reward(100)])
            },
            Op::Evolve => {
                let id = evolve_id(st[n - 1]);
                &&& r && b.stack@ == st.drop_last() && b.ip == a.ip && b.program == a.program
                    && b.call_stack == a.call_stack && b.program_stack == a.program_stack
                    && b.memory == a.memory && b.total_reward == a.total_reward
                &&& id >= SKILL_OPCODE_BASE && evolvable(a.program@) ==> b.skills@
                    == a.skills@.insert(id, a.program@) && Self::emits(
                    a,
                    b,
                    base,
                    seq![Event::Reward(100)],
                )
                &&& !(id >= SKILL_OPCODE_BASE && evolvable(a.program@)) ==> b.skills == a.skills
                    && Self::fails(a, b, base, VMError::InvalidEvolve(id))
            },
            Op::Intuition => {
                &&& r && b.stack == a.stack && b.call_stack == a.call_stack && b.memory
                    == a.memory && b.skills == a.skills && b.total_reward == a.total_reward
                &&& extends(base, b.log@)
                &&& (b.program == a.program && b.ip == a.ip && b.program_stack == a.program_stack)
                    || (b.program_stack@.len() == a.program_stack@.len() + 1 && b.ip == 0
                    && exists|id: i64| a.skills@.contains_key(id) && b.program@ == a.skills@[id])
            },
        }
    }

    /// The machine once the cell at `ip` has been read: `ip` one further and
    /// one more tick.
    pub open spec fn after_read(a: Self) -> Self {
        SoulGainVM {
            program: a.program,
            stack: a.stack,
            call_stack: a.call_stack,
            program_stack: a.program_stack,
            ip: (a.ip + 1) as usize,
            memory: a.memory,
            last_event: a.last_event,
            skills: a.skills,
            patterns: a.patterns,
            trace: a.trace,
            recent_opcodes: a.recent_opcodes,
            tick: sat_add(a.tick, 1),
            total_reward: a.total_reward,
            error_count: a.error_count,
            halted: a.halted,
            log: a.log,
        }
    }

    /// One cycle from `a` to `b`, returning `r`: the cell at `ip` is read and
    /// decoded; a cell that does not decode, or names no opcode, records
    /// `InvalidOpcode`; a skill id records its `Opcode` event and enters the
    /// skill (or records `InvalidOpcode` when there is none); a primitive
    /// opcode does what `semantics` says, after an `Opcode` event unless the
    /// stack is too shallow for its delta.
    pub open spec fn step_post(a: &Self, b: &Self, r: bool) -> bool {
        let cell = a.program@[a.ip as int];
        let m = Self::after_read(*a);
        let n = a.stack@.len();
        &&& b.tick == sat_add(a.tick, 1)
        &&& b.halted == a.halted
        &&& extends(a.log@, b.log@)
        &&& (!r ==> b.program_stack@.len() == 0)
        &&& match decoded(cell) {
            None => r && b.stack == a.stack && b.ip == a.ip + 1 && Self::keeps(a, b)
                && Self::fails(a, b, a.log@, VMError::InvalidOpcode(-1i64)),
            Some(code) => {
                let ev = Event::Opcode {
                    opcode: code,
                    stack_depth: crate::event::bucket_of(n),
                };
                if code >= SKILL_OPCODE_BASE {
                    &&& r && b.stack == a.stack && b.call_stack == a.call_stack && b.memory
                        == a.memory && b.skills == a.skills && b.total_reward == a.total_reward
                    &&& a.skills@.contains_key(code) ==> b.log@ == a.log@.push(ev)
                        && b.error_count == a.error_count && b.ip == 0 && b.program@
                        == a.skills@[code] && b.program_stack@.drop_last() == a.program_stack@
                        && b.program_stack@.last().program@ == a.program@
                        && b.program_stack@.last().ip == a.ip + 1
                    &&& !a.skills@.contains_key(code) ==> Self::fails(
                        a,
                        b,
                        a.log@.push(ev),
                        VMError::InvalidOpcode(code),
                    ) && b.program == a.program && b.ip == a.ip + 1 && b.program_stack
                        == a.program_stack
                } else {
                    match op_of(code) {
                        None => r && b.stack == a.stack && b.ip == a.ip + 1 && Self::keeps(a, b)
                            && Self::fails(a, b, a.log@, VMError::InvalidOpcode(code)),
                        Some(op) => if n < required_of(op) {
                            r && b.stack == a.stack && b.ip == a.ip + 1 && Self::keeps(a, b)
                                && Self::fails(a, b, a.log@, VMError::StackUnderflow)
                        } else {
                            Self::semantics(&m, b, op, r, a.log@.push(ev))
                        },
                    }
                }
            },
        }
    }

    /// From `a`, whose `ip` is past the end of its program, the innermost
    /// frame is resumed, and nothing else changes.
    pub open spec fn resumes(a: Self, b: Self) -> bool {
        &&& a.program_stack@.len() > 0
        &&& b.program_stack@ == a.program_stack@.drop_last()
        &&& b.program == a.program_stack@.last().program
        &&& b.ip == a.program_stack@.last().ip
        &&& b.stack == a.stack
        &&& b.call_stack == a.call_stack
        &&& b.memory == a.memory
        &&& b.skills == a.skills
        &&& b.total_reward == a.total_reward
        &&& b.error_count == a.error_count
        &&& b.log == a.log
        &&& b.tick == a.tick
        &&& b.halted == a.halted
    }

    /// One link of a run: a resumed frame when `ip` is past the end of the
    /// program, else one cycle, with `go_on` what it returned.
    pub open spec fn run_link(a: Self, b: Self, go_on: bool) -> bool {
        if a.ip >= a.program@.len() {
            go_on && Self::resumes(a, b)
        } else {
            Self::step_post(&a, &b, go_on)
        }
    }

    /// States `s` linked one to the next, `g[i]` saying whether the link
    /// from `s[i]` let the machine go on; only the last may stop it.
    pub open spec fn run_chain(s: Seq<Self>, g: Seq<bool>) -> bool {
        &&& s.len() == g.len() + 1
        &&& forall|i: int| 0 <= i < g.len() ==> #[trigger] Self::run_link(s[i], s[i + 1], g[i])
        &&& forall|i: int| 0 <= i < g.len() - 1 ==> #[trigger] g[i]
    }

    /// How many of the first `k` states of `s` ran a cycle (rather than
    /// resuming a frame).
    pub open spec fn cycles_in(s: Seq<Self>, k: int) -> nat
        decreases k,
    {
        if k <= 0 {
            0
        } else {
            Self::cycles_in(s, k - 1) + (if s[k - 1].ip < s[k - 1].program@.len() {
                1nat
            } else {
                0nat
            })
        }
    }

    /// How a run that passed through `s` ends in `b`: at most `max` cycles;
    /// `b` is the last state with the trace handed over and `halted` set when
    /// the last cycle stopped the machine; it ended early only when it
    /// stopped or ran off its program with no frame left; and a run that
    /// used its whole budget ended on a cycle.
    pub open spec fn run_end(s: Seq<Self>, g: Seq<bool>, b: &Self, max: nat) -> bool {
        let last = s.last();
        let cycles = Self::cycles_in(s, s.len() - 1);
        &&& cycles <= max
        &&& b.program == last.program
        &&& b.stack == last.stack
        &&& b.call_stack == last.call_stack
        &&& b.program_stack == last.program_stack
        &&& b.ip == last.ip
        &&& b.memory == last.memory
        &&& b.skills == last.skills
        &&& b.tick == last.tick
        &&& b.total_reward == last.total_reward
        &&& b.error_count == last.error_count
        &&& b.log == last.log
        &&& b.trace@.len() == 0
        &&& b.halted == (g.len() > 0 && !g.last())
        &&& cycles == max || b.halted || (last.ip >= last.program@.len()
            && last.program_stack@.len() == 0)
        &&& (cycles == max && g.len() > 0) ==> s[s.len() - 2].ip < s[s.len() - 2].program@.len()
    }

    proof fn lemma_cycles_prefix(s: Seq<Self>, t: Seq<Self>, k: int)
        requires
            0 <= k <= s.len(),
            k <= t.len(),
            forall|i: int| 0 <= i < k ==> s[i] == t[i],
        ensures
            Self::cycles_in(s, k) == Self::cycles_in(t, k),
        decreases k,
    {
        if k > 0 {
            Self::lemma_cycles_prefix(s, t, k - 1);
        }
    }

    proof fn lemma_chain_push(s: Seq<Self>, g: Seq<bool>, next: Self, go_on: bool)
        requires
            Self::run_chain(s, g),
            g.len() == 0 || g.last(),
            Self::run_link(s.last(), next, go_on),
        ensures
            Self::run_chain(s.push(next), g.push(go_on)),
            s.push(next)[0] == s[0],
            Self::cycles_in(s.push(next), s.len() as int) == Self::cycles_in(s, s.len() - 1) + (
            if s.last().ip < s.last().program@.len() {
                1nat
            } else {
                0nat
            }),
    {
        let t = s.push(next);
        let h = g.push(go_on);
        assert forall|i: int| 0 <= i < h.len() implies #[trigger] Self::run_link(t[i], t[i + 1], h[i]) by {
            if i < g.len() {
                assert(t[i] == s[i] && t[i + 1] == s[i + 1] && h[i] == g[i]);
            } else {
                assert(t[i] == s.last() && t[i + 1] == next);
            }
        }
        assert forall|i: int| 0 <= i < h.len() - 1 implies #[trigger] h[i] by {
            assert(h[i] == g[i]);
        }
        Self::lemma_cycles_prefix(s, t, s.len() - 1);
        assert(t[s.len() - 1] == s.last());
    }

    /// The instruction pointers stay within their programs, the recent
    /// opcodes within their bound, and the skill library well formed.
    pub open spec fn wf(&self) -> bool {
        &&& self.ip <= self.program@.len()
        &&& forall|i: int|
            0 <= i < self.program_stack@.len() ==> #[trigger] self.program_stack@[i].ip
                <= self.program_stack@[i].program@.len()
        &&& self.recent_opcodes@.len() <= RECENT_OPCODES
        &&& self.trace@.len() <= TRACE_CAPACITY
        &&& self.skills.wf()
    }

    /// Everything but the events, the trace and the error count is as in `a`.
    pub open spec fn same_state(a: &Self, b: &Self) -> bool {
        &&& b.program == a.program
        &&& b.stack == a.stack
        &&& b.call_stack == a.call_stack
        &&& b.program_stack == a.program_stack
        &&& b.ip == a.ip
        &&& b.memory == a.memory
        &&& b.skills == a.skills
        &&& b.patterns == a.patterns
        &&& b.recent_opcodes == a.recent_opcodes
        &&& b.tick == a.tick
        &&& b.total_reward == a.total_reward
        &&& b.halted == a.halted
    }

    /// What holds after one opcode `op` ran from `a` to `b` and said whether
    /// to go on. Unless an error was recorded or an immediate was missing,
    /// the stack changes by the opcode's delta, and an opcode whose result
    /// needs nothing from the host leaves the stack that `pure_effect`
    /// gives. An opcode that does not branch moves past its immediates. The
    /// machine stops only with no frame left.
    pub open spec fn op_effect(a: &Self, b: &Self, op: Op, go_on: bool) -> bool {
        &&& b.wf()
        &&& b.tick == a.tick
        &&& b.halted == a.halted
        &&& extends(a.log@, b.log@)
        &&& (a.stack@.len() >= required_of(op) && (immediates_of(op) == 0 || a.ip
            < a.program@.len()) && no_error_since(a.log@, b.log@) ==> b.stack@.len()
            == a.stack@.len() + delta_of(op))
        &&& (!branches(op) && (immediates_of(op) == 0 || a.ip < a.program@.len()) ==> b.ip
            == a.ip + immediates_of(op) && b.program == a.program)
        &&& (!go_on ==> b.program_stack@.len() == 0)
        &&& (a.stack@.len() >= inputs_of(op) && (immediates_of(op) == 0 || a.ip
            < a.program@.len()) && no_error_since(a.log@, b.log@) && pure_effect(
            op,
            a.stack@,
            a.cell_at_ip(),
        ) is Some ==> b.stack@ == pure_effect(op, a.stack@, a.cell_at_ip())->0)
    }

    pub fn new(program: Vec<u64>) -> (r: SoulGainVM)
        ensures
            r.wf(),
            r.program == program,
            r.stack@.len() == 0,
            r.call_stack@.len() == 0,
            r.program_stack@.len() == 0,
            r.ip == 0,
            r.trace@.len() == 0,
            r.tick == 0,
            r.total_reward == 0,
            r.error_count == 0,
            !r.halted,
            r.log@.len() == 0,
            r.skills@ == Map::<i64, Seq<u64>>::empty(),
    {
        SoulGainVM {
            program,
            stack: Vec::new(),
            call_stack: Vec::new(),
            program_stack: Vec::new(),
            ip: 0,
            memory: MemorySystem::new(),
            last_event: None,
            skills: SkillLibrary::new(),
            patterns: PatternBook::new(),
            trace: Vec::new(),
            recent_opcodes: Vec::new(),
            tick: 0,
            total_reward: 0,
            error_count: 0,
            halted: false,
            log: Ghost(Seq::empty()),
        }
    }

    /// Appends an event to the trace, handing the trace to the host first
    /// when it is full.
    fn record_event<H: Host>(&mut self, host: &mut H, event: Event)
        ensures
            Self::same_state(old(self), final(self)),
            final(self).error_count == old(self).error_count,
            final(self).log@ == old(self).log@.push(event),
            final(self).log@[old(self).log@.len() as int] == event,
            old(self).trace@.len() < TRACE_CAPACITY ==> final(self).trace@ == old(self).trace@.push(
                event,
            ),
            old(self).trace@.len() >= TRACE_CAPACITY ==> final(self).trace@ == seq![event],
    {
        if self.trace.len() >= TRACE_CAPACITY {
            self.flush_trace(host);
        }
        self.last_event = Some(event);
        self.trace.push(event);
        self.log = Ghost(self.log@.push(event));
    }

    /// Hands the pending events to the host as one batch.
    fn flush_trace<H: Host>(&mut self, host: &mut H)
        ensures
            Self::same_state(old(self), final(self)),
            final(self).error_count == old(self).error_count,
            final(self).log@ == old(self).log@,
            final(self).trace@.len() == 0,
    {
        if self.trace.len() > 0 {
            let mut batch: Vec<Event> = Vec::new();
            std::mem::swap(&mut batch, &mut self.trace);
            host.observe_batch(batch);
        }
    }

    fn record_error<H: Host>(&mut self, host: &mut H, error: VMError)
        ensures
            Self::same_state(old(self), final(self)),
            final(self).error_count == sat_add(old(self).error_count, 1),
            final(self).log@ == old(self).log@.push(Event::Error(error)),
            final(self).log@[old(self).log@.len() as int] == Event::Error(error),
            final(self).trace@.len() == 0,
    {
        if self.error_count < u64::MAX {
            self.error_count = self.error_count + 1;
        }
        self.record_event(host, Event::Error(error));
        self.flush_trace(host);
    }

    fn push_recent_opcode(&mut self, opcode: i64)
        requires
            old(self).recent_opcodes@.len() <= RECENT_OPCODES,
        ensures
            final(self).recent_opcodes@.len() <= RECENT_OPCODES,
            final(self).recent_opcodes@.last() == opcode,
            final(self).program == old(self).program,
            final(self).stack == old(self).stack,
            final(self).call_stack == old(self).call_stack,
            final(self).program_stack == old(self).program_stack,
            final(self).ip == old(self).ip,
            final(self).memory == old(self).memory,
            final(self).skills == old(self).skills,
            final(self).patterns == old(self).patterns,
            final(self).tick == old(self).tick,
            final(self).total_reward == old(self).total_reward,
            final(self).error_count == old(self).error_count,
            final(self).log == old(self).log,
            final(self).trace == old(self).trace,
            final(self).halted == old(self).halted,
    {
        if self.recent_opcodes.len() >= RECENT_OPCODES {
            self.recent_opcodes.remove(0);
        }
        self.recent_opcodes.push(opcode);
    }

    /// How a skill invocation went, judged when its frame is restored: a
    /// success when no error was counted since, the reward points earned
    /// since, and whether the stack is at least as deep as the skill expects.
    pub open spec fn outcome_spec(&self, inv: SkillInvocation) -> SkillOutcome {
        SkillOutcome {
            success: self.error_count == inv.errors_before,
            reward_delta: if self.total_reward >= inv.reward_before {
                (self.total_reward - inv.reward_before) as u64
            } else {
                0
            },
            stack_match_after: self.stack@.len() >= inv.expected_depth_min,
            used_tick: self.tick,
        }
    }

    pub fn outcome_of(&self, inv: SkillInvocation) -> (r: SkillOutcome)
        ensures
            r == self.outcome_spec(inv),
    {
        let success = self.error_count == inv.errors_before;
        let reward_delta = if self.total_reward >= inv.reward_before {
            self.total_reward - inv.reward_before
        } else {
            0
        };
        let stack_match_after = self.stack.len() >= inv.expected_depth_min as usize;
        SkillOutcome { success, reward_delta, stack_match_after, used_tick: self.tick }
    }

    /// Pops the innermost program frame, if any, resumes its program, and
    /// reports the outcome of the skill that it ran.
    fn restore_program<H: Host>(&mut self, host: &mut H) -> (r: bool)
        requires
            old(self).wf(),
        ensures
            final(self).wf(),
            r == (old(self).program_stack@.len() > 0),
            r ==> final(self).program_stack@ == old(self).program_stack@.drop_last(),
            r ==> final(self).program == old(self).program_stack@.last().program,
            r ==> final(self).ip == old(self).program_stack@.last().ip,
            !r ==> final(self).program == old(self).program && final(self).ip == old(self).ip
                && final(self).program_stack@.len() == 0,
            final(self).stack == old(self).stack,
            final(self).tick == old(self).tick,
            final(self).log == old(self).log,
            final(self).trace == old(self).trace,
            final(self).halted == old(self).halted,
            final(self).call_stack == old(self).call_stack,
            final(self).memory == old(self).memory,
            final(self).skills == old(self).skills,
            final(self).patterns == old(self).patterns,
            final(self).total_reward == old(self).total_reward,
            final(self).error_count == old(self).error_count,
            final(self).recent_opcodes == old(self).recent_opcodes,
    {
        match self.program_stack.pop() {
            Some(frame) => {
                proof {
                    assert(frame == old(self).program_stack@.last());
                    assert(frame.ip <= frame.program@.len()) by {
                        assert(old(self).program_stack@[old(self).program_stack@.len() - 1]
                            == frame);
                    }
                    assert forall|i: int| 0 <= i < self.program_stack@.len() implies #[trigger] self.program_stack@[i].ip
                        <= self.program_stack@[i].program@.len() by {
                        assert(self.program_stack@[i] == old(self).program_stack@[i]);
                    }
                }
                match frame.skill_invocation {
                    Some(invocation) => {
                        let outcome = self.outcome_of(invocation);
                        host.skill_finished(invocation.skill_id, outcome);
                    },
                    None => {},
                }
                self.program = frame.program;
                self.ip = frame.ip;
                true
            },
            None => false,
        }
    }

    /// Ends the current program: flushes the events and resumes the saved
    /// program, or tells the caller to stop when there is none.
    fn halt_frame<H: Host>(&mut self, host: &mut H) -> (r: bool)
        requires
            old(self).wf(),
        ensures
            final(self).wf(),
            r == (old(self).program_stack@.len() > 0),
            !r ==> final(self).program_stack@.len() == 0,
            final(self).stack == old(self).stack,
            final(self).tick == old(self).tick,
            final(self).log == old(self).log,
            final(self).trace@.len() == 0,
            final(self).halted == old(self).halted,
            r ==> final(self).program_stack@ == old(self).program_stack@.drop_last()
                && final(self).program == old(self).program_stack@.last().program
                && final(self).ip == old(self).program_stack@.last().ip,
            !r ==> final(self).program == old(self).program && final(self).ip == old(self).ip,
            final(self).call_stack == old(self).call_stack,
            final(self).memory == old(self).memory,
            final(self).skills == old(self).skills,
            final(self).total_reward == old(self).total_reward,
            final(self).error_count == old(self).error_count,
    {
        self.flush_trace(host);
        self.restore_program(host)
    }

    /// Runs skill `skill_id`: saves the current program and resumes it when
    /// the skill's body ends. An unknown skill is an `InvalidOpcode` error.
    fn execute_skill<H: Host>(&mut self, host: &mut H, skill_id: i64)
        requires
            old(self).wf(),
        ensures
            final(self).wf(),
            final(self).stack == old(self).stack,
            final(self).tick == old(self).tick,
            final(self).halted == old(self).halted,
            old(self).skills@.contains_key(skill_id) ==> final(self).log == old(self).log
                && final(self).program_stack@.len() == old(self).program_stack@.len() + 1
                && final(self).program@ == old(self).skills@[skill_id] && final(self).ip == 0,
            !old(self).skills@.contains_key(skill_id) ==> final(self).log@ == old(self).log@.push(
                Event::Error(VMError::InvalidOpcode(skill_id)),
            ) && final(self).program == old(self).program && final(self).ip == old(self).ip
                && final(self).program_stack == old(self).program_stack && final(self).error_count
                == sat_add(old(self).error_count, 1),
            old(self).skills@.contains_key(skill_id) ==> ({
                let frame = final(self).program_stack@.last();
                &&& final(self).program_stack@.drop_last() == old(self).program_stack@
                &&& frame.program@ == old(self).program@
                &&& frame.ip == old(self).ip
                &&& frame.skill_invocation == Some(
                    SkillInvocation {
                        skill_id,
                        reward_before: old(self).total_reward,
                        errors_before: old(self).error_count,
                        expected_depth_min: final(self).patterns@[skill_id].min_depth,
                    },
                )
                &&& final(self).patterns@.contains_key(skill_id)
                &&& final(self).error_count == old(self).error_count
            }),
            final(self).call_stack == old(self).call_stack,
            final(self).memory == old(self).memory,
            final(self).skills == old(self).skills,
            final(self).total_reward == old(self).total_reward,
    {
        let body = match self.skills.get_skill(skill_id) {
            Some(code) => Some(copy_cells(code)),
            None => None,
        };
        match body {
            Some(body) => {
                let ctx = build_context(&self.stack, &self.recent_opcodes);
                self.patterns.bootstrap_pattern_if_empty(skill_id, &ctx);
                let expected_depth_min = self.patterns.min_depth_of(skill_id);
                let mut saved: Vec<u64> = Vec::new();
                std::mem::swap(&mut saved, &mut self.program);
                let frame = ProgramFrame {
                    program: saved,
                    ip: self.ip,
                    skill_invocation: Some(
                        SkillInvocation {
                            skill_id,
                            reward_before: self.total_reward,
                            errors_before: self.error_count,
                            expected_depth_min,
                        },
                    ),
                };
                self.program_stack.push(frame);
                self.program = body;
                self.ip = 0;
                proof {
                    assert forall|i: int| 0 <= i < self.program_stack@.len() implies #[trigger] self.program_stack@[i].ip
                        <= self.program_stack@[i].program@.len() by {
                        if i < old(self).program_stack@.len() {
                            assert(self.program_stack@[i] == old(self).program_stack@[i]);
                        }
                    }
                }
            },
            None => {
                self.record_error(host, VMError::InvalidOpcode(skill_id));
            },
        }
    }

    /// Where a jump to cell `target` lands: `Ok` with the index when the
    /// target is finite, not negative and inside the program, else the
    /// payload of the `InvalidJump` error.
    fn jump_target(&self, target: u64) -> (r: Result<usize, i64>)
        ensures
            r == jump_spec(self.program@.len(), target),
            r matches Ok(idx) ==> idx < self.program@.len(),
    {
        if !is_finite(target) || (is_negative(target) && !is_zero(target)) {
            return Err(-1);
        }
        let idx = target_index(target);
        if idx >= self.program.len() as u64 {
            if idx >= 0x8000_0000_0000_0000u64 {
                Err(i64::MAX)
            } else {
                Err(idx as i64)
            }
        } else {
            Ok(idx as usize)
        }
    }

    /// The opcodes that take two values: arithmetic, comparison and logic.
    fn exec_binary<H: Host>(&mut self, host: &mut H, op: Op) -> (r: bool)
        requires
            old(self).wf(),
            old(self).stack@.len() >= 1,
            op == Op::Add || op == Op::Sub || op == Op::Mul || op == Op::Mod || op == Op::Eq || op
                == Op::Gt || op == Op::And || op == Op::Or || op == Op::Xor,
        ensures
            Self::op_effect(old(self), final(self), op, r),
            r,
            Self::semantics(old(self), final(self), op, r, old(self).log@),
    {
        if self.stack.len() < 2 {
            self.record_error(host, VMError::StackUnderflow);
            return true;
        }
        let b = self.stack.pop().unwrap();
        let a = self.stack.pop().unwrap();
        let code = op.as_i64();
        match op {
            Op::Eq => {
                let v = a.equals(&b);
                self.stack.push(UVal::Bool(v));
            },
            Op::And => {
                let v = a.is_truthy() && b.is_truthy();
                self.stack.push(UVal::Bool(v));
            },
            Op::Or => {
                let v = a.is_truthy() || b.is_truthy();
                self.stack.push(UVal::Bool(v));
            },
            Op::Xor => {
                let v = a.is_truthy() != b.is_truthy();
                self.stack.push(UVal::Bool(v));
            },
            _ => {
                match (a, b) {
                    (UVal::Number(x), UVal::Number(y)) => {
                        let v = match op {
                            Op::Gt => UVal::Bool(greater_than(x, y)),
                            Op::Add => UVal::Number(host.arith(ArithOp::Add, x, y)),
                            Op::Sub => UVal::Number(host.arith(ArithOp::Sub, x, y)),
                            Op::Mul => UVal::Number(host.arith(ArithOp::Mul, x, y)),
                            _ => UVal::Number(host.arith(ArithOp::Rem, x, y)),
                        };
                        self.stack.push(v);
                        assert(self.stack@.drop_last() =~= old(self).stack@.drop_last().drop_last());
                    },
                    (UVal::String(x), UVal::String(y)) => {
                        if op == Op::Add {
                            let joined = x.concat(y.as_str());
                            self.stack.push(UVal::String(joined));
                            assert(self.stack@.drop_last() =~= old(self).stack@.drop_last().drop_last());
                        } else {
                            self.record_error(host, VMError::InvalidOpcode(code));
                        }
                    },
                    _ => {
                        self.record_error(host, VMError::InvalidOpcode(code));
                    },
                }
            },
        }
        true
    }

    /// The opcodes that take one value and leave one.
    fn exec_unary<H: Host>(&mut self, host: &mut H, op: Op) -> (r: bool)
        requires
            old(self).wf(),
            op == Op::Not || op == Op::IsZero || op == Op::Inc || op == Op::Dec || op == Op::Parse,
        ensures
            Self::op_effect(old(self), final(self), op, r),
            r,
            Self::semantics(old(self), final(self), op, r, old(self).log@),
    {
        if self.stack.len() == 0 {
            self.record_error(host, VMError::StackUnderflow);
            return true;
        }
        let v = self.stack.pop().unwrap();
        let code = op.as_i64();
        match op {
            Op::Not | Op::IsZero => {
                let t = v.is_truthy();
                self.stack.push(UVal::Bool(!t));
            },
            Op::Inc | Op::Dec => {
                match v {
                    UVal::Number(n) => {
                        let kind = if op == Op::Inc {
                            ArithOp::Add
                        } else {
                            ArithOp::Sub
                        };
                        let s = host.arith(kind, n, ONE_BITS);
                        self.stack.push(UVal::Number(s));
                    },
                    _ => {
                        self.record_error(host, VMError::InvalidOpcode(code));
                    },
                }
            },
            _ => {
                match v {
                    UVal::String(text) => {
                        match host.parse_number(&text) {
                            Some(n) => self.stack.push(UVal::Number(n)),
                            None => self.stack.push(UVal::Nil),
                        }
                    },
                    UVal::Number(n) => self.stack.push(UVal::Number(n)),
                    _ => self.stack.push(UVal::Nil),
                }
            },
        }
        proof {
            if self.stack@.len() == old(self).stack@.len() {
                assert(self.stack@.drop_last() =~= old(self).stack@.drop_last());
            }
        }
        true
    }

    /// `Swap`, `Dup`, `Over` and `Drop`.
    fn exec_shuffle<H: Host>(&mut self, host: &mut H, op: Op) -> (r: bool)
        requires
            old(self).wf(),
            op == Op::Swap || op == Op::Dup || op == Op::Over || op == Op::Drop,
            op == Op::Drop ==> old(self).stack@.len() >= 1,
        ensures
            Self::op_effect(old(self), final(self), op, r),
            r,
            op == Op::Swap && old(self).stack@.len() >= 2 ==> final(self).stack@ == old(
                self,
            ).stack@.drop_last().drop_last().push(old(self).stack@.last()).push(
                old(self).stack@[old(self).stack@.len() - 2],
            ),
            Self::semantics(old(self), final(self), op, r, old(self).log@),
    {
        let len = self.stack.len();
        match op {
            Op::Swap => {
                if len < 2 {
                    self.record_error(host, VMError::StackUnderflow);
                    return true;
                }
                let b = self.stack.pop().unwrap();
                let a = self.stack.pop().unwrap();
                self.stack.push(b);
                self.stack.push(a);
            },
            Op::Dup => {
                if len == 0 {
                    self.record_error(host, VMError::StackUnderflow);
                    return true;
                }
                let v = self.stack[len - 1].duplicate();
                self.stack.push(v);
            },
            Op::Over => {
                if len < 2 {
                    self.record_error(host, VMError::StackUnderflow);
                    return true;
                }
                let v = self.stack[len - 2].duplicate();
                self.stack.push(v);
            },
            _ => {
                self.stack.pop();
            },
        }
        true
    }

    /// `Store` and `Load`.
    fn exec_memory<H: Host>(&mut self, host: &mut H, op: Op) -> (r: bool)
        requires
            old(self).wf(),
            op == Op::Store || op == Op::Load,
            op == Op::Store ==> old(self).stack@.len() >= 2,
        ensures
            Self::op_effect(old(self), final(self), op, r),
            r,
            Self::memory_effect(old(self), final(self), op),
            Self::semantics(old(self), final(self), op, r, old(self).log@),
    {
        if op == Op::Store {
            let val = self.stack.pop().unwrap();
            let addr = self.stack.pop().unwrap();
            match addr {
                UVal::Number(a) => {
                    if self.memory.write(a, val) {
                        self.record_event(host, Event::MemoryWrite);
                    }
                },
                _ => {
                    self.record_error(host, VMError::InvalidOpcode(op.as_i64()));
                },
            }
        } else {
            if self.stack.len() == 0 {
                self.record_error(host, VMError::StackUnderflow);
                return true;
            }
            let addr = self.stack.pop().unwrap();
            match addr {
                UVal::Number(a) => {
                    match self.memory.read(a) {
                        Some(v) => {
                            self.stack.push(v);
                            self.record_event(host, Event::MemoryRead);
                        },
                        None => {
                            self.stack.push(UVal::Nil);
                        },
                    }
                },
                _ => {
                    self.record_error(host, VMError::InvalidOpcode(op.as_i64()));
                },
            }
        }
        true
    }

    /// `Literal`, `Jmp`, `JmpIf` and `Call`: the opcodes with an immediate.
    fn exec_immediate<H: Host>(&mut self, host: &mut H, op: Op) -> (r: bool)
        requires
            old(self).wf(),
            op == Op::Literal || op == Op::Jmp || op == Op::JmpIf || op == Op::Call,
            op == Op::JmpIf ==> old(self).stack@.len() >= 1,
        ensures
            Self::op_effect(old(self), final(self), op, r),
            Self::semantics(old(self), final(self), op, r, old(self).log@),
    {
        if self.ip >= self.program.len() {
            if op == Op::JmpIf {
                self.record_error(host, VMError::InvalidJump(-1));
            }
            return self.halt_frame(host);
        }
        let cell = self.program[self.ip];
        self.ip = self.ip + 1;
        match op {
            Op::Literal => {
                self.stack.push(UVal::Number(cell));
            },
            Op::JmpIf => {
                let condition = self.stack.pop().unwrap();
                if condition.is_truthy() {
                    match self.jump_target(cell) {
                        Ok(idx) => {
                            self.ip = idx;
                        },
                        Err(payload) => {
                            self.record_error(host, VMError::InvalidJump(payload));
                        },
                    }
                }
            },
            _ => {
                match self.jump_target(cell) {
                    Ok(idx) => {
                        if op == Op::Call {
                            self.call_stack.push(self.ip);
                        }
                        self.ip = idx;
                    },
                    Err(payload) => {
                        self.record_error(host, VMError::InvalidJump(payload));
                    },
                }
            },
        }
        true
    }

    /// `Halt`, `Ret`, `Reward` and `Intuition`.
    fn exec_control<H: Host>(&mut self, host: &mut H, op: Op) -> (r: bool)
        requires
            old(self).wf(),
            op == Op::Halt || op == Op::Ret || op == Op::Reward || op == Op::Intuition,
        ensures
            Self::op_effect(old(self), final(self), op, r),
            Self::semantics(old(self), final(self), op, r, old(self).log@),
    {
        match op {
            Op::Halt => {
                let r = self.halt_frame(host);
                assert(Self::semantics(old(self), self, op, r, old(self).log@));
                return r;
            },
            Op::Ret => {
                match self.call_stack.pop() {
                    Some(return_ip) => {
                        if return_ip <= self.program.len() {
                            self.ip = return_ip;
                            assert(Self::emits(old(self), self, old(self).log@, seq![]));
                        } else {
                            let payload: i64 = if return_ip as u64 > i64::MAX as u64 {
                                i64::MAX
                            } else {
                                return_ip as i64
                            };
                            self.record_error(host, VMError::InvalidJump(payload));
                            assert(payload == crate::number::clamp_i64(return_ip as int));
                        }
                    },
                    None => {
                        self.record_error(host, VMError::ReturnStackUnderflow);
                    },
                }
            },
            Op::Reward => {
                self.total_reward = if self.total_reward <= u64::MAX - REWARD_POINTS {
                    self.total_reward + REWARD_POINTS
                } else {
                    u64::MAX
                };
                self.record_event(host, Event::Reward(100));
                self.flush_trace(host);
                assert(Self::semantics(old(self), self, op, true, old(self).log@));
            },
            _ => {
                self.exec_intuition(host);
                assert(Self::semantics(old(self), self, op, true, old(self).log@));
            },
        }
        true
    }

    /// Offers the skills whose patterns fit the current context to the host,
    /// and runs the one it picks.
    fn exec_intuition<H: Host>(&mut self, host: &mut H)
        requires
            old(self).wf(),
        ensures
            final(self).wf(),
            final(self).stack == old(self).stack,
            final(self).tick == old(self).tick,
            final(self).halted == old(self).halted,
            extends(old(self).log@, final(self).log@),
            final(self).call_stack == old(self).call_stack,
            final(self).memory == old(self).memory,
            final(self).skills == old(self).skills,
            final(self).total_reward == old(self).total_reward,
            (final(self).program == old(self).program && final(self).ip == old(self).ip
                && final(self).program_stack == old(self).program_stack) || (
            final(self).program_stack@.len() == old(self).program_stack@.len() + 1
                && final(self).ip == 0 && exists|id: i64|
                old(self).skills@.contains_key(id) && final(self).program@
                    == old(self).skills@[id]),
    {
        let ids = self.skills.ids();
        let ctx = build_context(&self.stack, &self.recent_opcodes);
        let mut candidates: Vec<SkillCandidate> = Vec::new();
        let mut i: usize = 0;
        while i < ids.len()
            invariant
                self.wf(),
                self.stack == old(self).stack,
                self.tick == old(self).tick,
                self.halted == old(self).halted,
                self.log == old(self).log,
                self.program == old(self).program,
                self.ip == old(self).ip,
                self.program_stack == old(self).program_stack,
                self.skills == old(self).skills,
                self.recent_opcodes == old(self).recent_opcodes,
                self.call_stack == old(self).call_stack,
                self.memory == old(self).memory,
                self.total_reward == old(self).total_reward,
            decreases ids.len() - i,
        {
            let id = ids[i];
            self.patterns.ensure_skill_known(id);
            let score = match self.patterns.patterns.get(&id) {
                Some(p) => pattern_match(&ctx, p),
                None => 0,
            };
            if score >= GATE_THIRTIETHS {
                candidates.push(SkillCandidate { skill_id: id, pattern_score: score });
            }
            i = i + 1;
        }
        if candidates.len() > 0 {
            match host.select_skill(&ctx, &candidates, self.tick) {
                Some(skill_id) => {
                    self.execute_skill(host, skill_id);
                },
                None => {},
            }
        }
    }

    /// Stores the running program as a skill under the id on top of the
    /// stack, when it decodes, passes the static check, and the id is a
    /// skill opcode.
    fn exec_evolve<H: Host>(&mut self, host: &mut H) -> (r: bool)
        requires
            old(self).wf(),
            old(self).stack@.len() >= 1,
        ensures
            Self::op_effect(old(self), final(self), Op::Evolve, r),
            r,
            Self::semantics(old(self), final(self), Op::Evolve, r, old(self).log@),
    {
        let top = self.stack.pop().unwrap();
        let id: i64 = match top {
            UVal::Number(bits) => match decode_cell(bits) {
                Some(n) => n,
                None => -1,
            },
            _ => -1,
        };
        if id < SKILL_OPCODE_BASE {
            self.record_error(host, VMError::InvalidEvolve(id));
            return true;
        }
        let valid = match decode_ops_for_validation(&self.program) {
            Some(ops) => validate_ops(&ops),
            None => false,
        };
        if valid {
            let body = copy_cells(&self.program);
            self.skills.define_skill(id, body);
            self.record_event(host, Event::Reward(100));
            self.flush_trace(host);
        } else {
            self.record_error(host, VMError::InvalidEvolve(id));
        }
        true
    }

    /// Runs one primitive opcode whose cell has been read. Before dispatch,
    /// a stack with fewer values than the opcode's delta takes away is left
    /// alone and a `StackUnderflow` is recorded. Returns false when the
    /// machine should stop.
    pub fn execute_opcode<H: Host>(&mut self, host: &mut H, op: Op) -> (r: bool)
        requires
            old(self).wf(),
        ensures
            Self::op_effect(old(self), final(self), op, r),
            old(self).stack@.len() < required_of(op) ==> final(self).stack == old(self).stack
                && final(self).log@ == old(self).log@.push(Event::Error(VMError::StackUnderflow))
                && r,
            old(self).stack@.len() < required_of(op) ==> Self::fails(
                old(self),
                final(self),
                old(self).log@,
                VMError::StackUnderflow,
            ) && Self::keeps(old(self), final(self)) && final(self).ip == old(self).ip,
            old(self).stack@.len() >= required_of(op) ==> Self::semantics(
                old(self),
                final(self),
                op,
                r,
                old(self).log@.push(
                    Event::Opcode {
                        opcode: crate::op::code_of(op),
                        stack_depth: crate::event::bucket_of(old(self).stack@.len()),
                    },
                ),
            ),
            Self::memory_effect(old(self), final(self), op),
    {
        let info = logic_of(op);
        if info.stack_delta < 0 && self.stack.len() < (-info.stack_delta) as usize {
            self.record_error(host, VMError::StackUnderflow);
            proof {
                assert(self.log@[old(self).log@.len() as int] is Error);
            }
            return true;
        }
        let depth = normalize_depth(self.stack.len());
        self.record_event(host, Event::Opcode { opcode: op.as_i64(), stack_depth: depth });
        self.push_recent_opcode(op.as_i64());
        let ghost mid = *self;
        let r = match op {
            Op::Add | Op::Sub | Op::Mul | Op::Mod | Op::Eq | Op::Gt | Op::And | Op::Or | Op::Xor => {
                self.exec_binary(host, op)
            },
            Op::Not | Op::IsZero | Op::Inc | Op::Dec | Op::Parse => self.exec_unary(host, op),
            Op::Swap | Op::Dup | Op::Over | Op::Drop => self.exec_shuffle(host, op),
            Op::Store | Op::Load => self.exec_memory(host, op),
            Op::Literal | Op::Jmp | Op::JmpIf | Op::Call => self.exec_immediate(host, op),
            Op::Evolve => self.exec_evolve(host),
            _ => self.exec_control(host, op),
        };
        proof {
            lemma_extends_trans(old(self).log@, mid.log@, self.log@);
            if no_error_since(old(self).log@, self.log@) {
                assert forall|i: int| mid.log@.len() <= i < self.log@.len() implies !(
                #[trigger] self.log@[i] is Error) by {
                    assert(old(self).log@.len() <= i);
                }
            }
        }
        r
    }

    /// Runs one cycle: reads the cell at `ip`, decodes it, and runs the
    /// opcode or skill it names. A cell that does not decode records
    /// `InvalidOpcode(-1)`. Returns false when the machine should stop.
    pub fn step<H: Host>(&mut self, host: &mut H) -> (r: bool)
        requires
            old(self).wf(),
            old(self).ip < old(self).program@.len(),
        ensures
            final(self).wf(),
            final(self).tick == sat_add(old(self).tick, 1),
            final(self).halted == old(self).halted,
            extends(old(self).log@, final(self).log@),
            !r ==> final(self).program_stack@.len() == 0,
            Self::step_post(old(self), final(self), r),
            decoded(old(self).program@[old(self).ip as int]) is None ==> final(self).log@ == old(
                self,
            ).log@.push(Event::Error(VMError::InvalidOpcode(-1i64))) && final(self).ip == old(self).ip
                + 1 && r,
            ({
                let cell = old(self).program@[old(self).ip as int];
                let d = decoded(cell);
                let op = op_of(d->0)->0;
                (d is Some && d->0 < SKILL_OPCODE_BASE && op_of(d->0) is Some && !branches(op) && (
                immediates_of(op) == 0 || old(self).ip + 1 < old(self).program@.len()))
                    ==> final(self).ip == old(self).ip + 1 + immediates_of(op)
            }),
    {
        let len = self.program.len();
        let raw = self.program[self.ip];
        self.ip = self.ip + 1;
        if self.tick < u64::MAX {
            self.tick = self.tick + 1;
        }
        let ghost entry = *self;
        assert(entry == Self::after_read(*old(self)));
        match decode_cell(raw) {
            None => {
                self.record_error(host, VMError::InvalidOpcode(-1));
                true
            },
            Some(code) => {
                if code >= SKILL_OPCODE_BASE {
                    let depth = normalize_depth(self.stack.len());
                    self.record_event(host, Event::Opcode { opcode: code, stack_depth: depth });
                    self.push_recent_opcode(code);
                    let ghost mid = *self;
                    self.execute_skill(host, code);
                    proof {
                        lemma_extends_trans(old(self).log@, mid.log@, self.log@);
                    }
                    true
                } else {
                    match Op::from_i64(code) {
                        Some(op) => {
                            let r = self.execute_opcode(host, op);
                            r
                        },
                        None => {
                            self.record_error(host, VMError::InvalidOpcode(code));
                            true
                        },
                    }
                }
            },
        }
    }

    /// Runs up to `max_cycles` cycles. Stops early only when the top-level
    /// program halts (`halted`) or runs off its end, with no frame left to
    /// resume. The trace is always flushed before returning. The states the
    /// machine passes through form a `run_chain` from the state it started
    /// in.
    pub fn run<H: Host>(&mut self, host: &mut H, max_cycles: usize)
        requires
            old(self).wf(),
        ensures
            final(self).wf(),
            final(self).trace@.len() == 0,
            extends(old(self).log@, final(self).log@),
            final(self).tick == sat_add(old(self).tick, max_cycles as int) || (
            final(self).program_stack@.len() == 0 && (final(self).halted || final(self).ip
                >= final(self).program@.len())),
            final(self).halted ==> final(self).program_stack@.len() == 0,
            exists|s: Seq<SoulGainVM>, g: Seq<bool>|
                {
                    &&& Self::run_chain(s, g)
                    &&& s[0] == *old(self)
                    &&& Self::run_end(s, g, final(self), max_cycles as nat)
                },
    {
        let mut cycles: usize = 0;
        let mut stopped = false;
        let ghost mut s: Seq<SoulGainVM> = seq![*self];
        let ghost mut g: Seq<bool> = Seq::empty();
        while cycles < max_cycles
            invariant_except_break
                !stopped,
            invariant
                self.wf(),
                cycles <= max_cycles,
                self.tick == sat_add(old(self).tick, cycles as int),
                extends(old(self).log@, self.log@),
                self.halted == old(self).halted,
                Self::run_chain(s, g),
                s[0] == *old(self),
                s.last() == *self,
                cycles == Self::cycles_in(s, s.len() - 1),
                stopped == (g.len() > 0 && !g.last()),
                stopped ==> self.program_stack@.len() == 0,
                (cycles == max_cycles && g.len() > 0) ==> s[s.len() - 2].ip < s[s.len()
                    - 2].program@.len(),
            ensures
                self.wf(),
                self.tick == sat_add(old(self).tick, cycles as int),
                extends(old(self).log@, self.log@),
                self.halted == old(self).halted,
                Self::run_chain(s, g),
                s[0] == *old(self),
                s.last() == *self,
                cycles == Self::cycles_in(s, s.len() - 1),
                stopped == (g.len() > 0 && !g.last()),
                stopped ==> self.program_stack@.len() == 0,
                cycles == max_cycles || stopped || (self.program_stack@.len() == 0 && self.ip
                    >= self.program@.len()),
                (cycles == max_cycles && g.len() > 0) ==> s[s.len() - 2].ip < s[s.len()
                    - 2].program@.len(),
            decreases max_cycles - cycles, self.program_stack@.len(),
        {
            let ghost before = *self;
            if self.ip >= self.program.len() {
                if self.program_stack.len() > 0 && self.restore_program(host) {
                    proof {
                        Self::lemma_chain_push(s, g, *self, true);
                        s = s.push(*self);
                        g = g.push(true);
                    }
                    continue;
                }
                break;
            }
            cycles = cycles + 1;
            let go_on = self.step(host);
            proof {
                lemma_extends_trans(old(self).log@, before.log@, self.log@);
                Self::lemma_chain_push(s, g, *self, go_on);
                s = s.push(*self);
                g = g.push(go_on);
            }
            if !go_on {
                stopped = true;
                break;
            }
        }
        self.flush_trace(host);
        self.halted = stopped;
        assert(Self::run_end(s, g, self, max_cycles as nat));
    }

    /// The first position of the program whose cell decodes to `target`.
    pub fn find_next_opcode(&self, target: i64) -> (r: Option<usize>)
        ensures
            r matches Some(i) ==> i < self.program@.len() && decoded(self.program@[i as int])
                == Some(target) && forall|j: int|
                0 <= j < i ==> decoded(#[trigger] self.program@[j]) != Some(target),
            r is None ==> forall|j: int|
                0 <= j < self.program@.len() ==> decoded(#[trigger] self.program@[j]) != Some(
                    target,
                ),
    {
        let mut i: usize = 0;
        while i < self.program.len()
            invariant
                i <= self.program@.len(),
                forall|j: int| 0 <= j < i ==> decoded(#[trigger] self.program@[j]) != Some(target),
            decreases self.program@.len() - i,
        {
            if decode_cell(self.program[i]) == Some(target) {
                return Some(i);
            }
            i = i + 1;
        }
        None
    }

    /// Makes the machine ready for a fresh trial of `program`: empty stacks,
    /// no frames, `ip` at zero.
    pub fn reset_with_program(&mut self, program: Vec<u64>)
        requires
            old(self).wf(),
        ensures
            final(self).wf(),
            final(self).program == program,
            final(self).ip == 0,
            final(self).stack@.len() == 0,
            final(self).call_stack@.len() == 0,
            final(self).program_stack@.len() == 0,
            final(self).skills == old(self).skills,
            final(self).memory == old(self).memory,
            final(self).error_count == old(self).error_count,
            final(self).total_reward == old(self).total_reward,
    {
        self.program = program;
        self.ip = 0;
        self.stack = Vec::new();
        self.call_stack = Vec::new();
        self.program_stack = Vec::new();
    }
}

proof fn lemma_extends_trans(a: Seq<Event>, b: Seq<Event>, c: Seq<Event>)
    requires
        extends(a, b),
        extends(b, c),
    ensures
        extends(a, c),
{
}

/// A copy of a sequence of cells.
pub fn copy_cells(cells: &Vec<u64>) -> (r: Vec<u64>)
    ensures
        r@ == cells@,
{
    let mut r: Vec<u64> = Vec::new();
    let mut i: usize = 0;
    while i < cells.len()
        invariant
            i <= cells@.len(),
            r@ == cells@.subrange(0, i as int),
        decreases cells@.len() - i,
    {
        r.push(cells[i]);
        i = i + 1;
        assert(r@ =~= cells@.subrange(0, i as int));
    }
    assert(cells@.subrange(0, i as int) =~= cells@);
    r
}

} // verus!
