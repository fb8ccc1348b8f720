use soulgain::event::{Event, VMError};
use soulgain::intuition::ContextSnapshot;
use soulgain::op::Op;
use soulgain::value::UVal;
use soulgain::vm::{ArithOp, Host, SkillCandidate, SkillOutcome, SoulGainVM};

/// A host that does binary64 arithmetic, picks the first gated skill, and
/// keeps every event it is handed.
#[derive(Default)]
struct RecordingHost {
    events: Vec<Event>,
    finished: Vec<(i64, SkillOutcome)>,
}

impl Host for RecordingHost {
    fn arith(&mut self, op: ArithOp, a: u64, b: u64) -> u64 {
        let (x, y) = (f64::from_bits(a), f64::from_bits(b));
        let v = match op {
            ArithOp::Add => x + y,
            ArithOp::Sub => x - y,
            ArithOp::Mul => x * y,
            ArithOp::Rem => x % y,
        };
        v.to_bits()
    }

    fn parse_number(&mut self, text: &String) -> Option<u64> {
        text.parse::<f64>().ok().map(|v| v.to_bits())
    }


    fn select_skill(
        &mut self,
        _ctx: &ContextSnapshot,
        candidates: &Vec<SkillCandidate>,
        _tick: u64,
    ) -> Option<i64> {
        candidates.first().map(|c| c.skill_id)
    }

    fn skill_finished(&mut self, skill_id: i64, outcome: SkillOutcome) {
        self.finished.push((skill_id, outcome));
    }

    fn observe_batch(&mut self, events: Vec<Event>) {
        self.events.extend(events);
    }
}

fn op(o: Op) -> f64 {
    o.as_i64() as f64
}

fn cells(values: &[f64]) -> Vec<u64> {
    values.iter().map(|v| v.to_bits()).collect()
}

fn num(v: f64) -> UVal {
    UVal::Number(v.to_bits())
}

fn run_with(program: &[f64], stack: Vec<UVal>, cycles: usize) -> (SoulGainVM, RecordingHost) {
    let mut vm = SoulGainVM::new(cells(program));
    vm.stack = stack;
    let mut host = RecordingHost::default();
    vm.run(&mut host, cycles);
    (vm, host)
}

fn errors(host: &RecordingHost) -> Vec<VMError> {
    host.events
        .iter()
        .filter_map(|e| match e {
            Event::Error(k) => Some(*k),
            _ => None,
        })
        .collect()
}

#[test]
fn literal_add_gives_sum_without_errors() {
    let program = [op(Op::Literal), 10.5, op(Op::Literal), 20.5, op(Op::Add), op(Op::Halt)];
    let (vm, host) = run_with(&program, vec![], 100);
    assert_eq!(vm.stack, vec![num(31.0)]);
    assert!(errors(&host).is_empty());
    assert!(vm.trace.is_empty());
}

#[test]
fn add_on_empty_stack_underflows_once() {
    let program = [op(Op::Add), op(Op::Halt)];
    let (vm, host) = run_with(&program, vec![], 100);
    assert!(vm.stack.is_empty());
    assert_eq!(errors(&host), vec![VMError::StackUnderflow]);
}

#[test]
fn greater_than_pushes_true() {
    let program = [op(Op::Literal), 10.0, op(Op::Literal), 5.0, op(Op::Gt), op(Op::Halt)];
    let (vm, _host) = run_with(&program, vec![], 100);
    assert_eq!(vm.stack, vec![UVal::Bool(true)]);
}

#[test]
fn compare_swap_orders_two_values() {
    let program = [
        op(Op::Over),
        op(Op::Over),
        op(Op::Gt),
        op(Op::JmpIf),
        6.0,
        op(Op::Halt),
        op(Op::Swap),
        op(Op::Halt),
    ];
    let (vm, host) = run_with(&program, vec![num(9.0), num(2.0)], 100);
    assert_eq!(vm.stack, vec![num(2.0), num(9.0)]);
    assert!(errors(&host).is_empty());
}

#[test]
fn compare_swap_keeps_ordered_values() {
    let program = [
        op(Op::Over),
        op(Op::Over),
        op(Op::Gt),
        op(Op::JmpIf),
        6.0,
        op(Op::Halt),
        op(Op::Swap),
        op(Op::Halt),
    ];
    let (vm, _host) = run_with(&program, vec![num(2.0), num(9.0)], 100);
    assert_eq!(vm.stack, vec![num(2.0), num(9.0)]);
}

#[test]
fn hot_loop_runs_the_whole_budget() {
    let program = [
        op(Op::Literal),
        1.0,
        op(Op::Literal),
        2.0,
        op(Op::Add),
        op(Op::Drop),
        op(Op::Jmp),
        0.0,
    ];
    let (vm, host) = run_with(&program, vec![], 2_000_000);
    assert!(errors(&host).is_empty());
    assert!(vm.stack.is_empty());
    assert_eq!(vm.tick, 2_000_000);
}

#[test]
fn strings_concatenate() {
    let program = [op(Op::Add), op(Op::Halt)];
    let stack = vec![UVal::String("Hello, ".to_string()), UVal::String("World!".to_string())];
    let (vm, _host) = run_with(&program, stack, 100);
    assert_eq!(vm.stack, vec![UVal::String("Hello, World!".to_string())]);
}

#[test]
fn string_plus_number_is_invalid_opcode() {
    let program = [op(Op::Add), op(Op::Halt)];
    let stack = vec![UVal::String("Text".to_string()), num(5.0)];
    let (vm, host) = run_with(&program, stack, 100);
    assert!(vm.stack.is_empty());
    assert_eq!(errors(&host), vec![VMError::InvalidOpcode(1)]);
}

#[test]
fn store_then_load_round_trips() {
    let program = [op(Op::Store), op(Op::Literal), 100.0, op(Op::Load), op(Op::Halt)];
    let stack = vec![num(100.0), UVal::String("Soul Data".to_string())];
    let (vm, host) = run_with(&program, stack, 100);
    assert_eq!(vm.stack, vec![UVal::String("Soul Data".to_string())]);
    assert!(host.events.contains(&Event::MemoryWrite));
    assert!(host.events.contains(&Event::MemoryRead));
}

#[test]
fn load_of_unknown_address_pushes_nil() {
    let program = [op(Op::Literal), 7.25, op(Op::Load), op(Op::Halt)];
    let (vm, host) = run_with(&program, vec![], 100);
    assert_eq!(vm.stack, vec![UVal::Nil]);
    assert!(!host.events.contains(&Event::MemoryRead));
}

#[test]
fn store_at_infinite_address_writes_nothing() {
    let program = [op(Op::Store), op(Op::Halt)];
    let stack = vec![num(f64::INFINITY), num(1.0)];
    let (vm, host) = run_with(&program, stack, 100);
    assert!(vm.stack.is_empty());
    assert!(vm.memory.storage.is_empty());
    assert!(!host.events.contains(&Event::MemoryWrite));
}

#[test]
fn logic_opcodes_use_truthiness() {
    let program = [
        op(Op::Literal),
        1.0,
        op(Op::Literal),
        0.0,
        op(Op::And),
        op(Op::Literal),
        1.0,
        op(Op::Literal),
        0.0,
        op(Op::Or),
        op(Op::Literal),
        1.0,
        op(Op::Literal),
        1.0,
        op(Op::Xor),
        op(Op::Literal),
        0.0,
        op(Op::IsZero),
        op(Op::Halt),
    ];
    let (vm, _host) = run_with(&program, vec![], 100);
    assert_eq!(
        vm.stack,
        vec![UVal::Bool(false), UVal::Bool(true), UVal::Bool(false), UVal::Bool(true)]
    );
}

#[test]
fn inc_dec_mod_sub_mul() {
    let program = [
        op(Op::Literal),
        7.0,
        op(Op::Inc),
        op(Op::Literal),
        3.0,
        op(Op::Mod),
        op(Op::Literal),
        5.0,
        op(Op::Dec),
        op(Op::Literal),
        2.0,
        op(Op::Sub),
        op(Op::Literal),
        4.0,
        op(Op::Mul),
        op(Op::Halt),
    ];
    let (vm, _host) = run_with(&program, vec![], 100);
    assert_eq!(vm.stack, vec![num(2.0), num(8.0)]);
}

#[test]
fn parse_turns_text_into_number_or_nil() {
    let program = [op(Op::Parse), op(Op::Swap), op(Op::Parse), op(Op::Halt)];
    let stack = vec![UVal::String("4.5".to_string()), UVal::String("four".to_string())];
    let (vm, _host) = run_with(&program, stack, 100);
    assert_eq!(vm.stack, vec![UVal::Nil, num(4.5)]);
}

#[test]
fn cell_within_tolerance_decodes_to_its_integer() {
    let program = [op(Op::Literal), 2.0, op(Op::Dup), 1.0000000001, op(Op::Halt)];
    let (vm, host) = run_with(&program, vec![], 100);
    assert_eq!(vm.stack, vec![num(4.0)]);
    assert!(errors(&host).is_empty());
}

#[test]
fn cell_off_tolerance_is_invalid_opcode() {
    let program = [1.5, op(Op::Literal), 3.0, f64::NAN, op(Op::Halt)];
    let (vm, host) = run_with(&program, vec![], 100);
    assert_eq!(vm.stack, vec![num(3.0)]);
    assert_eq!(errors(&host), vec![VMError::InvalidOpcode(-1), VMError::InvalidOpcode(-1)]);
}

#[test]
fn unknown_primitive_code_is_invalid_opcode() {
    let program = [4.0, op(Op::Halt)];
    let (_vm, host) = run_with(&program, vec![], 100);
    assert_eq!(errors(&host), vec![VMError::InvalidOpcode(4)]);
}

#[test]
fn jump_out_of_range_is_invalid_jump() {
    let program = [op(Op::Jmp), 40.0, op(Op::Jmp), -3.0, op(Op::Halt)];
    let (vm, host) = run_with(&program, vec![], 100);
    assert_eq!(errors(&host), vec![VMError::InvalidJump(40), VMError::InvalidJump(-1)]);
    assert_eq!(vm.ip, 5);
}

#[test]
fn call_and_ret_return_past_the_call() {
    let program = [
        op(Op::Call),
        5.0,
        op(Op::Literal),
        1.0,
        op(Op::Halt),
        op(Op::Literal),
        2.0,
        op(Op::Ret),
    ];
    let mut vm = SoulGainVM::new(cells(&program));
    let mut host = RecordingHost::default();
    vm.run(&mut host, 100);
    assert_eq!(vm.stack, vec![num(2.0), num(1.0)]);
    assert!(errors(&host).is_empty());
}

#[test]
fn ret_without_call_underflows_return_stack() {
    let program = [op(Op::Ret), op(Op::Halt)];
    let (_vm, host) = run_with(&program, vec![], 100);
    assert_eq!(errors(&host), vec![VMError::ReturnStackUnderflow]);
}

#[test]
fn literal_without_operand_ends_the_frame() {
    let program = [op(Op::Literal)];
    let (vm, host) = run_with(&program, vec![], 100);
    assert!(vm.stack.is_empty());
    assert!(errors(&host).is_empty());
    assert!(vm.program_stack.is_empty());
}

#[test]
fn reward_counts_points_and_flushes() {
    let program = [op(Op::Reward), op(Op::Reward), op(Op::Halt)];
    let (vm, host) = run_with(&program, vec![], 100);
    assert_eq!(vm.total_reward, 200);
    assert_eq!(host.events.iter().filter(|e| **e == Event::Reward(100)).count(), 2);
}

#[test]
fn opcode_events_carry_bucketed_depth() {
    let mut program = Vec::new();
    for i in 0..7 {
        program.push(op(Op::Literal));
        program.push(i as f64);
    }
    program.push(op(Op::Drop));
    program.push(op(Op::Halt));
    let (_vm, host) = run_with(&program, vec![], 100);
    assert!(host.events.contains(&Event::Opcode { opcode: 0, stack_depth: 3 }));
    assert!(host.events.contains(&Event::Opcode { opcode: 21, stack_depth: 5 }));
    assert!(!host.events.iter().any(|e| matches!(e, Event::Opcode { stack_depth: 6, .. })));
}

#[test]
fn skill_runs_and_returns_to_caller() {
    let mut vm = SoulGainVM::new(cells(&[op(Op::Literal), 3.0, 1001.0, op(Op::Literal), 1.0, op(Op::Halt)]));
    vm.skills.define_skill(1001, cells(&[op(Op::Dup), op(Op::Add), op(Op::Halt)]));
    let mut host = RecordingHost::default();
    vm.run(&mut host, 100);
    assert_eq!(vm.stack, vec![num(6.0), num(1.0)]);
    assert!(vm.program_stack.is_empty());
    assert_eq!(host.finished.len(), 1);
    assert_eq!(host.finished[0].0, 1001);
    assert!(host.finished[0].1.success);
}

#[test]
fn skill_running_off_its_end_returns_too() {
    let mut vm = SoulGainVM::new(cells(&[op(Op::Literal), 3.0, 1001.0, op(Op::Halt)]));
    vm.skills.define_skill(1001, cells(&[op(Op::Inc)]));
    let mut host = RecordingHost::default();
    vm.run(&mut host, 100);
    assert_eq!(vm.stack, vec![num(4.0)]);
    assert!(vm.program_stack.is_empty());
}

#[test]
fn unknown_skill_is_invalid_opcode() {
    let (_vm, host) = run_with(&[1234.0, op(Op::Halt)], vec![], 100);
    assert_eq!(errors(&host), vec![VMError::InvalidOpcode(1234)]);
}

#[test]
fn budget_exhausted_inside_skill_keeps_the_frame() {
    let mut vm = SoulGainVM::new(cells(&[1001.0, op(Op::Halt)]));
    vm.skills.define_skill(1001, cells(&[op(Op::Literal), 1.0, op(Op::Drop), op(Op::Halt)]));
    let mut host = RecordingHost::default();
    vm.run(&mut host, 2);
    assert_eq!(vm.program_stack.len(), 1);
    assert_eq!(vm.tick, 2);
    vm.run(&mut host, 100);
    assert!(vm.program_stack.is_empty());
    assert!(vm.stack.is_empty());
}

#[test]
fn evolve_registers_the_running_program() {
    let program = [op(Op::Literal), 1500.0, op(Op::Evolve), op(Op::Halt)];
    let (vm, host) = run_with(&program, vec![], 100);
    assert!(errors(&host).is_empty());
    assert!(vm.skills.contains(1500));
    assert_eq!(vm.skills.get_skill(1500).unwrap(), &cells(&program));
    assert!(host.events.contains(&Event::Reward(100)));
}

#[test]
fn evolve_rejects_an_underflowing_program() {
    let program = [op(Op::Literal), 1500.0, op(Op::Evolve), op(Op::Add), op(Op::Halt)];
    let (vm, host) = run_with(&program, vec![], 100);
    assert!(!vm.skills.contains(1500));
    assert!(errors(&host).contains(&VMError::InvalidEvolve(1500)));
}

#[test]
fn evolve_with_non_number_id_is_rejected() {
    let program = [op(Op::Evolve), op(Op::Halt)];
    let (_vm, host) = run_with(&program, vec![UVal::Bool(true)], 100);
    assert_eq!(errors(&host), vec![VMError::InvalidEvolve(-1)]);
}

#[test]
fn intuition_invokes_a_fitting_skill() {
    let mut vm = SoulGainVM::new(cells(&[op(Op::Literal), 2.0, op(Op::Intuition), op(Op::Halt)]));
    vm.skills.define_skill(1001, cells(&[op(Op::Inc), op(Op::Halt)]));
    let mut host = RecordingHost::default();
    vm.run(&mut host, 100);
    assert_eq!(vm.stack, vec![num(3.0)]);
    assert_eq!(host.finished.len(), 1);
}

#[test]
fn stack_underflow_leaves_stack_unchanged() {
    let program = [op(Op::Store), op(Op::Halt)];
    let (vm, host) = run_with(&program, vec![num(1.0)], 100);
    assert_eq!(vm.stack, vec![num(1.0)]);
    assert_eq!(errors(&host), vec![VMError::StackUnderflow]);
}

#[test]
fn step_moves_past_opcode_and_immediates() {
    let mut vm = SoulGainVM::new(cells(&[op(Op::Literal), 4.0, op(Op::Dup), op(Op::Halt)]));
    let mut host = RecordingHost::default();
    assert!(vm.step(&mut host));
    assert_eq!(vm.ip, 2);
    assert!(vm.step(&mut host));
    assert_eq!(vm.ip, 3);
    assert_eq!(vm.tick, 2);
    assert!(!vm.step(&mut host));
    assert!(vm.program_stack.is_empty());
}

#[test]
fn run_reports_top_level_halt() {
    let (vm, _host) = run_with(&[op(Op::Halt), op(Op::Literal), 1.0], vec![], 100);
    assert!(vm.halted);
    assert_eq!(vm.tick, 1);
    let (vm, _host) = run_with(&[op(Op::Literal), 1.0], vec![], 100);
    assert!(!vm.halted);
    assert_eq!(vm.ip, 2);
}

#[test]
fn opcode_cells_and_search() {
    assert_eq!(Op::Halt.as_cell(), 8.0f64.to_bits());
    assert_eq!(Op::Parse.as_cell(), 29.0f64.to_bits());
    let vm = SoulGainVM::new(cells(&[op(Op::Literal), 8.0, op(Op::Halt)]));
    assert_eq!(vm.find_next_opcode(8), Some(1));
    assert_eq!(vm.find_next_opcode(0), Some(0));
    assert_eq!(vm.find_next_opcode(3), None);
}

#[test]
fn execute_opcode_underflow_records_one_error() {
    let mut vm = SoulGainVM::new(vec![]);
    vm.stack.push(num(1.0));
    let mut host = RecordingHost::default();
    assert!(vm.execute_opcode(&mut host, Op::Store));
    assert_eq!(vm.stack, vec![num(1.0)]);
    assert_eq!(host.events, vec![Event::Error(VMError::StackUnderflow)]);
    assert!(vm.execute_opcode(&mut host, Op::Dup));
    assert_eq!(vm.stack, vec![num(1.0), num(1.0)]);
}

#[test]
fn long_runs_hand_events_over_in_order() {
    let mut program = Vec::new();
    for _ in 0..300 {
        program.push(op(Op::Literal));
        program.push(1.0);
        program.push(op(Op::Drop));
    }
    program.push(op(Op::Halt));
    let (vm, host) = run_with(&program, vec![], 10_000);
    assert!(vm.trace.is_empty());
    assert_eq!(host.events.len(), 601);
    assert_eq!(host.events[0], Event::Opcode { opcode: 0, stack_depth: 0 });
    assert_eq!(host.events[599], Event::Opcode { opcode: 21, stack_depth: 1 });
    assert_eq!(host.events[600], Event::Opcode { opcode: 8, stack_depth: 0 });
}
