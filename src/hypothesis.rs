//! Shortening of a found program: cells are dropped while the program still
//! gives the expected stack.
use crate::evolution::with_halt;
use crate::number::HALT_CELL;
use crate::value::{value_eq, UVal};
use crate::vm::{copy_cells, Host, SoulGainVM};
use vstd::prelude::*;

verus! {

/// Cycle budget of one validation run.
pub const VALIDATION_CYCLES: usize = 5000;

/// `sub` is `full` with some cells left out: `idx` gives, in increasing
/// order, the position in `full` of each cell of `sub`.
pub open spec fn embeds(sub: Seq<u64>, full: Seq<u64>, idx: Seq<int>) -> bool {
    &&& idx.len() == sub.len()
    &&& forall|j: int| 0 <= j < idx.len() ==> 0 <= #[trigger] idx[j] < full.len() && full[idx[j]] == sub[j]
    &&& forall|a: int, b: int| 0 <= a < b < idx.len() ==> idx[a] < idx[b]
}

pub open spec fn is_subsequence(sub: Seq<u64>, full: Seq<u64>) -> bool {
    exists|idx: Seq<int>| embeds(sub, full, idx)
}

pub open spec fn stacks_match(got: Seq<UVal>, want: Seq<UVal>) -> bool {
    got.len() == want.len() && forall|i: int| 0 <= i < got.len() ==> value_eq(#[trigger] got[i], want[i])
}

pub fn same_values(got: &Vec<UVal>, want: &Vec<UVal>) -> (r: bool)
    ensures
        r == stacks_match(got@, want@),
{
    if got.len() != want.len() {
        return false;
    }
    let mut i: usize = 0;
    while i < got.len()
        invariant
            i <= got@.len(),
            got@.len() == want@.len(),
            forall|k: int| 0 <= k < i ==> value_eq(#[trigger] got@[k], want@[k]),
        decreases got@.len() - i,
    {
        if !got[i].equals(&want[i]) {
            return false;
        }
        i = i + 1;
    }
    true
}

/// `start` is the machine on which `logic` is tried: the logic ending in
/// `Halt`, `input` on the stack, and the skills and memory of `base`.
pub open spec fn trial_start(base: SoulGainVM, logic: Seq<u64>, input: Seq<UVal>, start: SoulGainVM) -> bool {
    &&& start.program@ == with_halt(logic)
    &&& start.stack@ == input
    &&& start.ip == 0
    &&& start.call_stack@.len() == 0
    &&& start.program_stack@.len() == 0
    &&& start.skills@ == base.skills@
    &&& start.memory@ == base.memory@
}

/// A run of `logic` from `input`, for the validation budget, leaves exactly
/// `expected`.
pub open spec fn passes(base: SoulGainVM, logic: Seq<u64>, input: Seq<UVal>, expected: Seq<UVal>) -> bool {
    exists|s: Seq<SoulGainVM>, g: Seq<bool>, after: SoulGainVM|
        {
            &&& trial_start(base, logic, input, s[0])
            &&& SoulGainVM::run_chain(s, g)
            &&& SoulGainVM::run_end(s, g, &after, VALIDATION_CYCLES as nat)
            &&& stacks_match(after.stack@, expected)
        }
}

pub struct Pruner;

impl Pruner {
    /// Drops cells of `found_logic` one at a time, keeping each removal
    /// after which the logic, run from `input` with the skills and memory of
    /// `base_vm`, still leaves exactly `expected`; never below one cell.
    pub fn prune<H: Host>(
        host: &mut H,
        base_vm: &SoulGainVM,
        found_logic: &Vec<u64>,
        input: &Vec<UVal>,
        expected: &Vec<UVal>,
    ) -> (r: Vec<u64>)
        requires
            base_vm.wf(),
        ensures
            r@.len() <= found_logic@.len(),
            found_logic@.len() >= 1 ==> r@.len() >= 1,
            is_subsequence(r@, found_logic@),
            r@ == found_logic@ || passes(*base_vm, r@, input@, expected@),
    {
        let mut best = copy_cells(found_logic);
        let ghost mut idx: Seq<int> = Seq::new(found_logic@.len(), |j: int| j);
        let mut i: usize = 0;
        while i < best.len()
            invariant
                base_vm.wf(),
                best@.len() <= found_logic@.len(),
                found_logic@.len() >= 1 ==> best@.len() >= 1,
                embeds(best@, found_logic@, idx),
                best@ == found_logic@ || passes(*base_vm, best@, input@, expected@),
            decreases best@.len() - i, best@.len(),
        {
            if best.len() <= 1 {
                break;
            }
            let mut candidate = copy_cells(&best);
            candidate.remove(i);
            if Self::validates(host, base_vm, &candidate, input, expected) {
                proof {
                    let old_idx = idx;
                    idx = old_idx.remove(i as int);
                    assert forall|a: int, b: int| 0 <= a < b < idx.len() implies idx[a] < idx[b] by {
                        if a < i {
                            if b < i {
                            } else {
                                assert(idx[b] == old_idx[b + 1]);
                            }
                        } else {
                            assert(idx[a] == old_idx[a + 1]);
                            assert(idx[b] == old_idx[b + 1]);
                        }
                    }
                    assert forall|j: int| 0 <= j < idx.len() implies 0 <= #[trigger] idx[j]
                        < found_logic@.len() && found_logic@[idx[j]] == candidate@[j] by {
                        if j < i {
                            assert(idx[j] == old_idx[j]);
                        } else {
                            assert(idx[j] == old_idx[j + 1]);
                        }
                    }
                }
                best = candidate;
            } else {
                i = i + 1;
            }
        }
        best
    }

    /// Runs `logic`, with a final `Halt` added when it lacks one, on a fresh
    /// machine holding copies of `base_vm`'s skills and memory and `input`
    /// on its stack, and says whether it leaves exactly `expected`.
    fn validates<H: Host>(
        host: &mut H,
        base_vm: &SoulGainVM,
        logic: &Vec<u64>,
        input: &Vec<UVal>,
        expected: &Vec<UVal>,
    ) -> (r: bool)
        requires
            base_vm.wf(),
        ensures
            r ==> passes(*base_vm, logic@, input@, expected@),
    {
        let mut program = copy_cells(logic);
        let n = program.len();
        if n == 0 || program[n - 1] != HALT_CELL {
            program.push(HALT_CELL);
        }
        assert(program@ == with_halt(logic@));
        let mut vm = SoulGainVM::new(program);
        vm.skills = base_vm.skills.duplicate();
        vm.memory = base_vm.memory.duplicate();
        let mut k: usize = 0;
        while k < input.len()
            invariant
                vm.wf(),
                k <= input@.len(),
                vm.stack@ == input@.subrange(0, k as int),
                vm.program@ == with_halt(logic@),
                vm.ip == 0,
                vm.call_stack@.len() == 0,
                vm.program_stack@.len() == 0,
                vm.skills@ == base_vm.skills@,
                vm.memory@ == base_vm.memory@,
            decreases input@.len() - k,
        {
            vm.stack.push(input[k].duplicate());
            k = k + 1;
            assert(vm.stack@ =~= input@.subrange(0, k as int));
        }
        assert(input@.subrange(0, k as int) =~= input@);
        let ghost start = vm;
        vm.run(host, VALIDATION_CYCLES);
        let r = same_values(&vm.stack, expected);
        proof {
            let ghost after = vm;
            let (s, g) = choose|s: Seq<SoulGainVM>, g: Seq<bool>|
                {
                    &&& SoulGainVM::run_chain(s, g)
                    &&& s[0] == start
                    &&& SoulGainVM::run_end(s, g, &after, VALIDATION_CYCLES as nat)
                };
            if r {
                assert(trial_start(*base_vm, logic@, input@, s[0]));
            }
        }
        r
    }
}

} // verus!
