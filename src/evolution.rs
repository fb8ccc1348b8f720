//! The parts of program synthesis that build, edit and register programs.
//! The random draws and the scoring are made by the caller and handed in.
use crate::number::{
    cell_of, decoded, greater_than, is_nan, is_nan_bits, number_gt, HALT_CELL, LITERAL_CELL,
};
use crate::skills::SkillLibrary;
use crate::value::UVal;
use crate::vm::{copy_cells, Host, SoulGainVM};
use vstd::prelude::*;

verus! {

/// A reference function that gives the stack a program should leave for an
/// input.
pub trait Oracle {
    fn evaluate(&self, input: Vec<UVal>) -> Vec<UVal>;
}

/// Cycle budget of one trial run.
pub const TRIAL_CYCLES: usize = 10_000;

/// Longest window that speculation turns into a skill.
pub const MAX_WINDOW: usize = 5;

/// `Literal n` for each numeric input, in order; other inputs are skipped.
pub open spec fn preamble(input: Seq<UVal>) -> Seq<u64>
    decreases input.len(),
{
    if input.len() == 0 {
        Seq::empty()
    } else {
        preamble(input.drop_last()) + match input.last() {
            UVal::Number(n) => seq![LITERAL_CELL, n],
            _ => Seq::empty(),
        }
    }
}

/// Logic that ends in `Halt`.
pub open spec fn with_halt(logic: Seq<u64>) -> Seq<u64> {
    if logic.len() > 0 && logic.last() == HALT_CELL {
        logic
    } else {
        logic.push(HALT_CELL)
    }
}

/// The input preamble, then `logic`, then `Halt` unless the logic already
/// ends in one.
pub fn build_program(input: &Vec<UVal>, logic: &Vec<u64>) -> (r: Vec<u64>)
    ensures
        r@ == preamble(input@) + with_halt(logic@),
{
    let mut program: Vec<u64> = Vec::new();
    let mut i: usize = 0;
    while i < input.len()
        invariant
            i <= input@.len(),
            program@ == preamble(input@.subrange(0, i as int)),
        decreases input@.len() - i,
    {
        assert(input@.subrange(0, i + 1).drop_last() =~= input@.subrange(0, i as int));
        match &input[i] {
            UVal::Number(n) => {
                program.push(LITERAL_CELL);
                program.push(*n);
            },
            _ => {},
        }
        i = i + 1;
        assert(program@ =~= preamble(input@.subrange(0, i as int)));
    }
    assert(input@.subrange(0, i as int) =~= input@);
    let ghost pre = program@;
    let mut j: usize = 0;
    while j < logic.len()
        invariant
            j <= logic@.len(),
            program@ == pre + logic@.subrange(0, j as int),
        decreases logic@.len() - j,
    {
        program.push(logic[j]);
        j = j + 1;
        assert(program@ =~= pre + logic@.subrange(0, j as int));
    }
    assert(logic@.subrange(0, j as int) =~= logic@);
    let n = logic.len();
    if n == 0 || logic[n - 1] != HALT_CELL {
        program.push(HALT_CELL);
        assert(program@ =~= pre + logic@.push(HALT_CELL));
    }
    program
}

/// Number of cells of the input preamble.
pub fn preamble_len(input: &Vec<UVal>) -> (r: usize)
    requires
        2 * input@.len() <= usize::MAX,
    ensures
        r == preamble(input@).len(),
{
    let mut count: usize = 0;
    let mut i: usize = 0;
    while i < input.len()
        invariant
            i <= input@.len(),
            2 * input@.len() <= usize::MAX,
            count == preamble(input@.subrange(0, i as int)).len(),
            count <= 2 * i,
        decreases input@.len() - i,
    {
        assert(input@.subrange(0, i + 1).drop_last() =~= input@.subrange(0, i as int));
        match &input[i] {
            UVal::Number(_) => {
                count = count + 2;
            },
            _ => {},
        }
        i = i + 1;
    }
    assert(input@.subrange(0, i as int) =~= input@);
    count
}

fn same_cells(a: &Vec<u64>, b: &Vec<u64>) -> (r: bool)
    ensures
        r == (a@ == b@),
{
    if a.len() != b.len() {
        return false;
    }
    let mut i: usize = 0;
    while i < a.len()
        invariant
            i <= a@.len(),
            a@.len() == b@.len(),
            a@.subrange(0, i as int) == b@.subrange(0, i as int),
        decreases a@.len() - i,
    {
        if a[i] != b[i] {
            assert(a@[i as int] != b@[i as int]);
            return false;
        }
        i = i + 1;
        assert(a@.subrange(0, i as int) =~= b@.subrange(0, i as int)) by {
            assert forall|k: int| 0 <= k < i implies a@[k] == b@[k] by {
                if k < i - 1 {
                    assert(a@.subrange(0, i - 1)[k] == b@.subrange(0, i - 1)[k]);
                }
            }
        }
    }
    assert(a@ =~= a@.subrange(0, i as int));
    assert(b@ =~= b@.subrange(0, i as int));
    true
}

/// The skill whose body is `logic`, if one is stored: the first such id in
/// the library's order, or `fresh_id` under which `logic` is then stored.
pub fn register_or_find_skill(skills: &mut SkillLibrary, logic: Vec<u64>, fresh_id: i64) -> (r: i64)
    requires
        old(skills).wf(),
        fresh_id >= crate::op::SKILL_OPCODE_BASE,
        !old(skills)@.contains_key(fresh_id),
    ensures
        final(skills).wf(),
        (exists|id: i64| old(skills)@.contains_key(id) && old(skills)@[id] == logic@)
            ==> final(skills)@ == old(skills)@ && old(skills)@.contains_key(r) && old(skills)@[r]
            == logic@,
        !(exists|id: i64| old(skills)@.contains_key(id) && old(skills)@[id] == logic@) ==> r
            == fresh_id && final(skills)@ == old(skills)@.insert(fresh_id, logic@),
{
    let ids = skills.ids();
    let mut i: usize = 0;
    while i < ids.len()
        invariant
            i <= ids@.len(),
            ids@ == skills.order@,
            skills.wf(),
            skills == old(skills),
            forall|j: int| 0 <= j < i ==> skills@[#[trigger] ids@[j]] != logic@,
        decreases ids@.len() - i,
    {
        let id = ids[i];
        proof {
            assert(skills.order@.contains(id));
        }
        let body = skills.get_skill(id).unwrap();
        if same_cells(body, &logic) {
            return id;
        }
        i = i + 1;
    }
    proof {
        assert forall|id: i64| skills@.contains_key(id) implies skills@[id] != logic@ by {
            assert(skills.order@.contains(id));
            let j = choose|j: int| 0 <= j < ids@.len() && ids@[j] == id;
            assert(ids@[j] == id);
        }
    }
    skills.define_skill(fresh_id, logic);
    fresh_id
}

/// Whether a speculation window fits: from 2 to `MAX_WINDOW` cells, inside
/// the logic region (after `logic_start`, before the final cell).
pub open spec fn window_fits(len: nat, logic_start: nat, window: nat, start: nat) -> bool {
    &&& len >= 1
    &&& 2 <= window <= MAX_WINDOW
    &&& logic_start <= start
    &&& start + window <= len - 1
}

/// Turns a window of the logic region into a skill and puts the skill's
/// opcode in its place. `None`, with nothing changed, when the window does
/// not fit.
pub fn speculate_new_skill(
    skills: &mut SkillLibrary,
    program: &mut Vec<u64>,
    logic_start: usize,
    window_size: usize,
    start_idx: usize,
    fresh_id: i64,
) -> (r: Option<i64>)
    requires
        old(skills).wf(),
        crate::op::SKILL_OPCODE_BASE <= fresh_id < 0x20_0000_0000_0000,
        !old(skills)@.contains_key(fresh_id),
        forall|k: i64| #[trigger] old(skills)@.contains_key(k) ==> k < 0x20_0000_0000_0000,
    ensures
        final(skills).wf(),
        forall|k: i64| #[trigger] final(skills)@.contains_key(k) ==> k < 0x20_0000_0000_0000,
        r is None == !window_fits(
            old(program)@.len(),
            logic_start as nat,
            window_size as nat,
            start_idx as nat,
        ),
        r is None ==> final(program)@ == old(program)@ && final(skills)@ == old(skills)@,
        r matches Some(id) ==> ({
            let window = old(program)@.subrange(start_idx as int, start_idx + window_size);
            &&& final(skills)@.contains_key(id)
            &&& final(skills)@[id] == window
            &&& (final(skills)@ == old(skills)@ || final(skills)@ == old(skills)@.insert(
                fresh_id,
                window,
            ))
            &&& decoded(final(program)@[start_idx as int]) == Some(id)
            &&& final(program)@ == old(program)@.subrange(0, start_idx as int).push(
                final(program)@[start_idx as int],
            ) + old(program)@.subrange(start_idx + window_size, old(program)@.len() as int)
        }),
{
    let len = program.len();
    if len < 1 || window_size < 2 || window_size > MAX_WINDOW || start_idx < logic_start
        || start_idx > len - 1 || window_size > len - 1 - start_idx {
        return None;
    }
    let mut pattern: Vec<u64> = Vec::new();
    let mut k: usize = 0;
    while k < window_size
        invariant
            k <= window_size,
            len == program@.len(),
            start_idx + window_size <= program@.len(),
            pattern@ == program@.subrange(start_idx as int, start_idx + k),
        decreases window_size - k,
    {
        pattern.push(program[start_idx + k]);
        k = k + 1;
        assert(pattern@ =~= program@.subrange(start_idx as int, start_idx + k));
    }
    let ghost window = pattern@;
    let id = register_or_find_skill(skills, pattern, fresh_id);
    let cell = cell_of(id as u64);
    let mut rebuilt: Vec<u64> = Vec::new();
    let mut i: usize = 0;
    while i < start_idx
        invariant
            i <= start_idx,
            start_idx + window_size <= program@.len(),
            program@ == old(program)@,
            rebuilt@ == program@.subrange(0, i as int),
        decreases start_idx - i,
    {
        rebuilt.push(program[i]);
        i = i + 1;
        assert(rebuilt@ =~= program@.subrange(0, i as int));
    }
    rebuilt.push(cell);
    let ghost head = rebuilt@;
    let mut j: usize = start_idx + window_size;
    while j < len
        invariant
            start_idx + window_size <= j <= len,
            len == program@.len(),
            program@ == old(program)@,
            rebuilt@ == head + program@.subrange(start_idx + window_size, j as int),
        decreases len - j,
    {
        rebuilt.push(program[j]);
        j = j + 1;
        assert(rebuilt@ =~= head + program@.subrange(start_idx + window_size, j as int));
    }
    *program = rebuilt;
    proof {
        assert(final(program)@[start_idx as int] == cell);
        assert(head =~= old(program)@.subrange(0, start_idx as int).push(cell));
    }
    Some(id)
}

/// One mutation of the logic region (from `logic_start` to before the last
/// cell): the cells at `idx` and `swap_with` trade places, or, without a
/// partner, the cell at `idx` becomes `replacement`. Indices outside the
/// region leave the program as it was.
pub fn mutate_program(
    program: &mut Vec<u64>,
    logic_start: usize,
    idx: usize,
    swap_with: Option<usize>,
    replacement: u64,
)
    ensures
        ({
            let len = old(program)@.len();
            let in_region = |i: usize| logic_start <= i && i + 1 < len;
            if !in_region(idx) {
                final(program)@ == old(program)@
            } else {
                match swap_with {
                    Some(j) => if in_region(j) {
                        final(program)@ == old(program)@.update(idx as int, old(program)@[j as int]).update(
                            j as int,
                            old(program)@[idx as int],
                        )
                    } else {
                        final(program)@ == old(program)@
                    },
                    None => final(program)@ == old(program)@.update(idx as int, replacement),
                }
            }
        }),
{
    let len = program.len();
    if idx < logic_start || idx >= len || idx + 1 >= len {
        return;
    }
    match swap_with {
        Some(j) => {
            if j < logic_start || j >= len || j + 1 >= len {
                return;
            }
            let a = program[idx];
            let b = program[j];
            program.set(idx, b);
            program.set(j, a);
        },
        None => {
            program.set(idx, replacement);
        },
    }
}

/// Runs `program` from a clean stack on the machine for one trial's budget
/// and returns the final stack, which the machine also keeps. The machine's
/// own program is put back afterwards, with `ip` at zero and no frames;
/// skills and memory keep what the trial did to them.
pub fn execute_program<H: Host>(vm: &mut SoulGainVM, host: &mut H, program: &Vec<u64>) -> (r: Vec<UVal>)
    requires
        old(vm).wf(),
    ensures
        final(vm).wf(),
        final(vm).program@ == old(vm).program@,
        final(vm).ip == 0,
        final(vm).program_stack@.len() == 0,
        r@ == final(vm).stack@,
        exists|s: Seq<SoulGainVM>, g: Seq<bool>, after: SoulGainVM|
            {
                &&& SoulGainVM::run_chain(s, g)
                &&& s[0].program@ == program@
                &&& s[0].ip == 0
                &&& s[0].stack@.len() == 0
                &&& s[0].call_stack@.len() == 0
                &&& s[0].program_stack@.len() == 0
                &&& s[0].skills == old(vm).skills
                &&& s[0].memory == old(vm).memory
                &&& SoulGainVM::run_end(s, g, &after, TRIAL_CYCLES as nat)
                &&& r@ == after.stack@
                &&& final(vm).skills == after.skills
                &&& final(vm).memory == after.memory
            },
{
    let previous = copy_cells(&vm.program);
    vm.reset_with_program(copy_cells(program));
    let ghost start = *vm;
    vm.run(host, TRIAL_CYCLES);
    let ghost after = *vm;
    let ghost (s, g) = choose|s: Seq<SoulGainVM>, g: Seq<bool>|
        {
            &&& SoulGainVM::run_chain(s, g)
            &&& s[0] == start
            &&& SoulGainVM::run_end(s, g, &after, TRIAL_CYCLES as nat)
        };
    vm.program = previous;
    vm.ip = 0;
    vm.call_stack = Vec::new();
    vm.program_stack = Vec::new();
    let mut out: Vec<UVal> = Vec::new();
    let mut i: usize = 0;
    while i < vm.stack.len()
        invariant
            i <= vm.stack@.len(),
            out@ == vm.stack@.subrange(0, i as int),
            vm.wf(),
            vm.program@ == old(vm).program@,
            vm.ip == 0,
            vm.program_stack@.len() == 0,
            vm.stack == after.stack,
            vm.skills == after.skills,
            vm.memory == after.memory,
        decreases vm.stack@.len() - i,
    {
        out.push(vm.stack[i].duplicate());
        i = i + 1;
        assert(out@ =~= vm.stack@.subrange(0, i as int));
    }
    assert(vm.stack@.subrange(0, i as int) =~= vm.stack@);
    assert(SoulGainVM::run_end(s, g, &after, TRIAL_CYCLES as nat) && s[0] == start);
    out
}

/// The logic of a candidate: its cells from `logic_start` on, without a
/// final `Halt`.
pub open spec fn solution_logic(program: Seq<u64>, logic_start: int) -> Seq<u64> {
    let logic = program.subrange(logic_start, program.len() as int);
    if logic.len() > 0 && logic.last() == HALT_CELL {
        logic.drop_last()
    } else {
        logic
    }
}

/// What a solved candidate becomes: its logic is registered as a skill (an
/// identical body is reused), and the program becomes its preamble, that
/// skill's opcode, and `Halt`. A candidate without logic is kept as it is.
pub fn finalize_solution(
    skills: &mut SkillLibrary,
    program: &Vec<u64>,
    logic_start: usize,
    fresh_id: i64,
) -> (r: (Vec<u64>, Option<i64>))
    requires
        old(skills).wf(),
        logic_start <= program@.len(),
        crate::op::SKILL_OPCODE_BASE <= fresh_id < 0x20_0000_0000_0000,
        !old(skills)@.contains_key(fresh_id),
        forall|k: i64| #[trigger] old(skills)@.contains_key(k) ==> k < 0x20_0000_0000_0000,
    ensures
        final(skills).wf(),
        forall|k: i64| #[trigger] final(skills)@.contains_key(k) ==> k < 0x20_0000_0000_0000,
        solution_logic(program@, logic_start as int).len() == 0 ==> r.0@ == program@ && r.1 is None
            && final(skills)@ == old(skills)@,
        solution_logic(program@, logic_start as int).len() > 0 ==> ({
            let id = r.1->0;
            &&& r.1 is Some
            &&& final(skills)@.contains_key(id)
            &&& final(skills)@[id] == solution_logic(program@, logic_start as int)
            &&& r.0@.len() == logic_start + 2
            &&& r.0@.subrange(0, logic_start as int) == program@.subrange(0, logic_start as int)
            &&& decoded(r.0@[logic_start as int]) == Some(id)
            &&& r.0@[logic_start + 1] == HALT_CELL
        }),
{
    let len = program.len();
    let end = if len > logic_start && program[len - 1] == HALT_CELL {
        len - 1
    } else {
        len
    };
    let mut logic: Vec<u64> = Vec::new();
    let mut i: usize = logic_start;
    while i < end
        invariant
            logic_start <= i <= end <= len,
            len == program@.len(),
            logic@ == program@.subrange(logic_start as int, i as int),
        decreases end - i,
    {
        logic.push(program[i]);
        i = i + 1;
        assert(logic@ =~= program@.subrange(logic_start as int, i as int));
    }
    assert(logic@ =~= solution_logic(program@, logic_start as int));
    if logic.len() == 0 {
        return (copy_cells(program), None);
    }
    let id = register_or_find_skill(skills, logic, fresh_id);
    let mut out: Vec<u64> = Vec::new();
    let mut j: usize = 0;
    while j < logic_start
        invariant
            j <= logic_start <= len,
            len == program@.len(),
            out@ == program@.subrange(0, j as int),
        decreases logic_start - j,
    {
        out.push(program[j]);
        j = j + 1;
        assert(out@ =~= program@.subrange(0, j as int));
    }
    out.push(cell_of(id as u64));
    out.push(HALT_CELL);
    assert(out@.subrange(0, logic_start as int) =~= program@.subrange(0, logic_start as int));
    (out, Some(id))
}

/// Fitness at or above which a candidate counts as solved (`0.9999`).
pub const SOLVED_BITS: u64 = 0x3fef_ff2e_48e8_a71e;

/// Fitness below which invention is tried, and above which an improvement
/// is rewarded (`0.1`).
pub const REWARD_GATE_BITS: u64 = 0x3fb9_9999_9999_999a;

/// Draw below which invention is chosen (`0.5`).
pub const INVENT_DRAW_BITS: u64 = 0x3fe0_0000_0000_0000;

/// Draw below which speculation is chosen (`0.2`).
pub const SPECULATE_DRAW_BITS: u64 = 0x3fc9_9999_9999_999a;

/// How the next candidate is made.
#[derive(Clone, Copy, Debug, PartialEq, Eq, Structural)]
pub enum Strategy {
    /// A fresh macro of random opcodes, invoked over the preamble.
    Invent,
    /// A window of the best program turned into a skill.
    Speculate,
    /// One opcode of the best program swapped or replaced.
    Mutate,
    /// A fresh program built opcode by opcode.
    Random,
}

/// The strategy for a uniform `draw` in `[0, 1)` and the best fitness so
/// far: invention while the best is below the reward gate and the draw below
/// one half; once something scored, speculation for a draw below one fifth
/// and mutation otherwise; a fresh program when nothing scored yet.
pub open spec fn strategy_for(best_fitness: u64, draw: u64) -> Strategy {
    let scored = number_gt(best_fitness, 0);
    if number_gt(REWARD_GATE_BITS, best_fitness) && number_gt(INVENT_DRAW_BITS, draw) {
        Strategy::Invent
    } else if scored && number_gt(SPECULATE_DRAW_BITS, draw) {
        Strategy::Speculate
    } else if scored {
        Strategy::Mutate
    } else {
        Strategy::Random
    }
}

pub fn choose_strategy(best_fitness: u64, draw: u64) -> (r: Strategy)
    ensures
        r == strategy_for(best_fitness, draw),
{
    let scored = greater_than(best_fitness, 0);
    if greater_than(REWARD_GATE_BITS, best_fitness) && greater_than(INVENT_DRAW_BITS, draw) {
        Strategy::Invent
    } else if scored && greater_than(SPECULATE_DRAW_BITS, draw) {
        Strategy::Speculate
    } else if scored {
        Strategy::Mutate
    } else {
        Strategy::Random
    }
}

/// The state of one synthesis call: the best fitness and program so far,
/// and the logic already tried.
pub struct SearchState {
    pub best_fitness: u64,
    pub best_program: Option<Vec<u64>>,
    pub tried: Vec<Vec<u64>>,
}

/// What the loop does after scoring a candidate.
#[derive(Clone, Copy, Debug, PartialEq, Eq, Structural)]
pub struct TrialAction {
    /// The candidate is the new best.
    pub improved: bool,
    /// Reward the learner, in proportion to the fitness.
    pub reward: bool,
    /// The candidate solves the task.
    pub solved: bool,
}

pub open spec fn tried_views(tried: Seq<Vec<u64>>) -> Seq<Seq<u64>> {
    tried.map_values(|v: Vec<u64>| v@)
}

/// `a >= b` as binary64 values; false when either is NaN.
pub open spec fn number_ge(a: u64, b: u64) -> bool {
    !is_nan_bits(a) && !is_nan_bits(b) && !number_gt(b, a)
}

impl SearchState {
    /// Nothing scored and nothing tried.
    pub fn new() -> (r: SearchState)
        ensures
            r.best_fitness == 0,
            r.best_program is None,
            r.tried@.len() == 0,
    {
        SearchState { best_fitness: 0, best_program: None, tried: Vec::new() }
    }

    /// Records `logic` as tried; false when it was tried before, and then
    /// the candidate is skipped.
    pub fn mark_tried(&mut self, logic: Vec<u64>) -> (fresh: bool)
        ensures
            fresh == !tried_views(old(self).tried@).contains(logic@),
            fresh ==> tried_views(final(self).tried@) == tried_views(old(self).tried@).push(logic@),
            !fresh ==> tried_views(final(self).tried@) == tried_views(old(self).tried@),
            final(self).best_fitness == old(self).best_fitness,
            final(self).best_program == old(self).best_program,
    {
        let mut i: usize = 0;
        while i < self.tried.len()
            invariant
                i <= self.tried@.len(),
                forall|j: int| 0 <= j < i ==> self.tried@[j]@ != logic@,
            decreases self.tried@.len() - i,
        {
            if same_cells(&self.tried[i], &logic) {
                assert(tried_views(self.tried@)[i as int] == logic@);
                return false;
            }
            i = i + 1;
        }
        assert(!tried_views(self.tried@).contains(logic@)) by {
            if tried_views(self.tried@).contains(logic@) {
                let j = choose|j: int| 0 <= j < tried_views(self.tried@).len() && tried_views(self.tried@)[j] == logic@;
                assert(self.tried@[j]@ == logic@);
            }
        }
        self.tried.push(logic);
        assert(tried_views(self.tried@) =~= tried_views(old(self).tried@).push(logic@));
        true
    }

    /// Scores a candidate: it becomes the best when its fitness beats the
    /// best so far, an improvement above the reward gate is rewarded, and a
    /// fitness at or above `SOLVED_BITS` solves the task.
    pub fn record_trial(&mut self, candidate: Vec<u64>, fitness: u64) -> (r: TrialAction)
        ensures
            !number_gt(old(self).best_fitness, final(self).best_fitness) || is_nan_bits(
                old(self).best_fitness,
            ),
            r.improved == number_gt(fitness, old(self).best_fitness),
            r.improved ==> final(self).best_fitness == fitness && final(self).best_program
                == Some(candidate),
            !r.improved ==> final(self).best_fitness == old(self).best_fitness
                && final(self).best_program == old(self).best_program,
            r.reward == (r.improved && number_gt(fitness, REWARD_GATE_BITS)),
            r.solved == number_ge(fitness, SOLVED_BITS),
            final(self).tried == old(self).tried,
    {
        let improved = greater_than(fitness, self.best_fitness);
        if improved {
            self.best_fitness = fitness;
            self.best_program = Some(candidate);
        }
        let reward = improved && greater_than(fitness, REWARD_GATE_BITS);
        let solved = !is_nan(fitness) && !is_nan(SOLVED_BITS) && !greater_than(SOLVED_BITS, fitness);
        TrialAction { improved, reward, solved }
    }
}

/// The best fitness of a search never goes down: after any trial, the old
/// best is not above the new one.
pub proof fn law_best_fitness_never_decreases(old_best: u64, fitness: u64)
    requires
        !is_nan_bits(old_best),
    ensures
        ({
            let new_best = if number_gt(fitness, old_best) {
                fitness
            } else {
                old_best
            };
            !number_gt(old_best, new_best)
        }),
{
}

} // verus!
