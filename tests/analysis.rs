use soulgain::evolution::{
    build_program, choose_strategy, SearchState, Strategy, execute_program, finalize_solution, mutate_program, preamble_len,
    register_or_find_skill, speculate_new_skill,
};
use soulgain::event::{normalize_depth, Event};
use soulgain::hypothesis::Pruner;
use soulgain::intuition::{build_context, pattern_match, ContextSnapshot, PatternBook, SkillPattern};
use soulgain::logic::{
    apply_op, apply_signature, apply_stack_drop, apply_stack_dup, apply_stack_over,
    apply_stack_swap, base_signatures, infer_macro_signature, infer_skill_signatures,
    stack_distance, type_compatible, value_type, Signature, ValueType,
};
use soulgain::memory::MemorySystem;
use soulgain::number::{cell_of, decode_cell, greater_than, quantize_address, HALT_CELL, LITERAL_CELL};
use soulgain::op::{decode_ops_for_validation, logic_of, validate_ops, Op};
use soulgain::skills::SkillLibrary;
use soulgain::stdp::{normalization_sources, stdp_updates, EdgeUpdate, UpdateRule};
use soulgain::value::{number_band, value_kind, NumberBand, UVal, ValueKind};
use soulgain::vm::{ArithOp, Host, SkillCandidate, SkillOutcome, SoulGainVM};

struct FloatHost;

impl Host for FloatHost {
    fn arith(&mut self, op: ArithOp, a: u64, b: u64) -> u64 {
        let (x, y) = (f64::from_bits(a), f64::from_bits(b));
        match op {
            ArithOp::Add => x + y,
            ArithOp::Sub => x - y,
            ArithOp::Mul => x * y,
            ArithOp::Rem => x % y,
        }
        .to_bits()
    }

    fn parse_number(&mut self, text: &String) -> Option<u64> {
        text.parse::<f64>().ok().map(|v| v.to_bits())
    }


    fn select_skill(&mut self, _: &ContextSnapshot, c: &Vec<SkillCandidate>, _: u64) -> Option<i64> {
        c.first().map(|c| c.skill_id)
    }

    fn skill_finished(&mut self, _: i64, _: SkillOutcome) {}

    fn observe_batch(&mut self, _: Vec<Event>) {}
}

fn op(o: Op) -> u64 {
    (o.as_i64() as f64).to_bits()
}

fn num(v: f64) -> UVal {
    UVal::Number(v.to_bits())
}

#[test]
fn opcode_numbers_round_trip() {
    for code in 0..40i64 {
        if let Some(o) = Op::from_i64(code) {
            assert_eq!(o.as_i64(), code);
        }
    }
    assert_eq!(Op::from_i64(4), None);
    assert_eq!(Op::from_i64(29), Some(Op::Parse));
    assert_eq!(Op::from_i64(1000), None);
}

#[test]
fn opcode_static_facts() {
    let add = logic_of(Op::Add);
    assert_eq!((add.stack_delta, add.inputs, add.may_branch, add.immediates), (-1, 2, false, 0));
    let store = logic_of(Op::Store);
    assert_eq!(store.stack_delta, -2);
    let lit = logic_of(Op::Literal);
    assert_eq!((lit.stack_delta, lit.immediates), (1, 1));
    assert!(logic_of(Op::JmpIf).may_branch);
}

#[test]
fn decode_respects_tolerance() {
    assert_eq!(decode_cell(5.0f64.to_bits()), Some(5));
    assert_eq!(decode_cell(5.0000000001f64.to_bits()), Some(5));
    assert_eq!(decode_cell(4.9999999999f64.to_bits()), Some(5));
    assert_eq!(decode_cell((-3.0f64).to_bits()), Some(-3));
    assert_eq!(decode_cell(5.5f64.to_bits()), None);
    assert_eq!(decode_cell(5.000001f64.to_bits()), None);
    assert_eq!(decode_cell(f64::NAN.to_bits()), None);
    assert_eq!(decode_cell(f64::INFINITY.to_bits()), None);
    assert_eq!(decode_cell(1e-12f64.to_bits()), Some(0));
    assert_eq!(decode_cell(1e300f64.to_bits()), Some(i64::MAX));
    assert_eq!(decode_cell((-1e300f64).to_bits()), Some(i64::MIN));
}

#[test]
fn cells_of_integers_are_exact() {
    for n in [0u64, 1, 2, 3, 8, 29, 1000, 9999, 123_456_789, (1u64 << 53) - 1] {
        assert_eq!(cell_of(n), (n as f64).to_bits());
        assert_eq!(decode_cell(cell_of(n)), Some(n as i64));
    }
    assert_eq!(HALT_CELL, 8.0f64.to_bits());
    assert_eq!(LITERAL_CELL, 0.0f64.to_bits());
}

#[test]
fn greater_than_follows_binary64_order() {
    let pairs = [(1.0, 2.0), (2.0, 1.0), (-1.0, -2.0), (-0.0, 0.0), (f64::INFINITY, 1e308), (-5.0, 3.0)];
    for (a, b) in pairs {
        assert_eq!(greater_than(f64::to_bits(a), f64::to_bits(b)), a > b);
    }
    assert!(!greater_than(f64::NAN.to_bits(), 1.0f64.to_bits()));
    assert!(!greater_than(1.0f64.to_bits(), f64::NAN.to_bits()));
}

#[test]
fn value_equality_and_truthiness() {
    assert!(num(1.5).equals(&num(1.5)));
    assert!(!num(f64::NAN).equals(&num(f64::NAN)));
    assert!(UVal::String("a".to_string()).equals(&UVal::String("a".to_string())));
    assert!(!UVal::Nil.equals(&UVal::Bool(false)));
    assert!(!UVal::Nil.is_truthy());
    assert!(!num(0.0).is_truthy());
    assert!(!num(f64::INFINITY).is_truthy());
    assert!(num(-2.0).is_truthy());
    assert!(!UVal::String(String::new()).is_truthy());
    assert!(UVal::Object(3).is_truthy());
}

#[test]
fn kinds_and_bands() {
    assert_eq!(value_kind(&num(1.0)), ValueKind::Number);
    assert_eq!(value_kind(&UVal::Nil), ValueKind::Nil);
    assert_eq!(number_band(&num(-0.5)), Some(NumberBand::Neg));
    assert_eq!(number_band(&num(0.0)), Some(NumberBand::Zero));
    assert_eq!(number_band(&num(-0.0)), Some(NumberBand::Zero));
    assert_eq!(number_band(&num(9.99)), Some(NumberBand::Small));
    assert_eq!(number_band(&num(10.0)), Some(NumberBand::Medium));
    assert_eq!(number_band(&num(1000.0)), Some(NumberBand::Large));
    assert_eq!(number_band(&num(f64::NAN)), Some(NumberBand::Large));
    assert_eq!(number_band(&UVal::Bool(true)), None);
}

#[test]
fn depth_is_bucketed_at_five() {
    assert_eq!(normalize_depth(0), 0);
    assert_eq!(normalize_depth(4), 4);
    assert_eq!(normalize_depth(5), 5);
    assert_eq!(normalize_depth(77), 5);
}

fn addr(v: f64) -> u64 {
    v.to_bits()
}

#[test]
fn memory_write_then_read() {
    let mut m = MemorySystem::new();
    assert_eq!(m.read(addr(42.0)), None);
    assert!(m.write(addr(42.0), num(1.25)));
    assert_eq!(m.read(addr(42.0)), Some(num(1.25)));
    assert!(m.write(addr(42.0), UVal::Bool(true)));
    assert_eq!(m.read(addr(42.0)), Some(UVal::Bool(true)));
    assert_eq!(m.read(addr(43.0)), None);
}

#[test]
fn memory_addresses_are_quantised() {
    let mut m = MemorySystem::new();
    assert!(m.write(addr(0.1 + 0.2), num(7.0)));
    assert_eq!(m.read(addr(0.3)), Some(num(7.0)));
    assert_eq!(m.read(addr(0.30000001)), None);
    assert_eq!(m.read(addr(0.300000000001)), Some(num(7.0)));
}

#[test]
fn memory_rejects_non_finite_addresses() {
    let mut m = MemorySystem::new();
    assert!(!m.write(addr(f64::NAN), num(1.0)));
    assert!(!m.write(addr(f64::NEG_INFINITY), num(1.0)));
    assert!(m.storage.is_empty());
    assert_eq!(m.read(addr(f64::INFINITY)), None);
}

#[test]
fn address_keys_scale_and_round() {
    for a in [0.0, 1.0, -1.0, 0.5, 123.456, -7.25e-11, 2.5e-10, 3.0e-10, 1e-300, 9.2e8] {
        assert_eq!(quantize_address(addr(a)), (a * 1e10).round() as i64, "address {}", a);
    }
    assert_eq!(quantize_address(addr(1e12)), i64::MAX);
    assert_eq!(quantize_address(addr(-1e12)), i64::MIN);
    assert_eq!(quantize_address(addr(0.25e-10)), 0);
    assert_eq!(quantize_address(addr(0.5e-10)), 1);
}

#[test]
fn skill_library_keeps_definition_order() {
    let mut lib = SkillLibrary::new();
    lib.define_skill(1200, vec![op(Op::Add)]);
    lib.define_skill(1100, vec![op(Op::Sub)]);
    lib.define_skill(1200, vec![op(Op::Mul)]);
    assert_eq!(lib.ids(), vec![1200, 1100]);
    assert_eq!(lib.get_skill(1200), Some(&vec![op(Op::Mul)]));
    assert_eq!(lib.get_skill(1300), None);
    assert_eq!(lib.len(), 2);
}

#[test]
fn static_validation_of_bodies() {
    assert!(validate_ops(&vec![0, 0, 1, 8]));
    assert!(!validate_ops(&vec![1, 8]));
    assert!(!validate_ops(&vec![19, 1]));
    assert!(validate_ops(&vec![0, 19, 1, 1500, 8]));
    let cells = vec![op(Op::Literal), 1.5f64.to_bits(), op(Op::Dup), op(Op::Add), op(Op::Halt)];
    assert_eq!(decode_ops_for_validation(&cells), Some(vec![0, 19, 1, 8]));
    assert_eq!(decode_ops_for_validation(&vec![op(Op::Literal)]), None);
    assert_eq!(decode_ops_for_validation(&vec![4.0f64.to_bits()]), None);
    assert_eq!(decode_ops_for_validation(&vec![0.5f64.to_bits()]), None);
}

#[test]
fn context_snapshot_reads_the_top() {
    let stack = vec![num(1.0), UVal::Bool(true), num(500.0)];
    let ctx = build_context(&stack, &vec![3, 4]);
    assert_eq!(ctx.depth_bucket, 3);
    assert_eq!(ctx.top_types, [Some(ValueKind::Number), Some(ValueKind::Bool), Some(ValueKind::Number)]);
    assert_eq!(ctx.top_number_bands, [Some(NumberBand::Medium), None, Some(NumberBand::Small)]);
    assert_eq!(ctx.recent_opcodes, vec![3, 4]);
    let deep = vec![num(1.0); 8];
    assert_eq!(build_context(&deep, &vec![]).depth_bucket, 5);
}

#[test]
fn pattern_scores_in_thirtieths() {
    let ctx = build_context(&vec![num(1.0), UVal::Bool(true)], &vec![]);
    let open = SkillPattern { min_depth: 0, max_depth: 5, required_top_types: [None, None, None] };
    assert_eq!(pattern_match(&ctx, &open), 30);
    let half = SkillPattern {
        min_depth: 0,
        max_depth: 5,
        required_top_types: [Some(ValueKind::Bool), Some(ValueKind::String), None],
    };
    assert_eq!(pattern_match(&ctx, &half), 21);
    let none = SkillPattern {
        min_depth: 3,
        max_depth: 5,
        required_top_types: [Some(ValueKind::Number), None, None],
    };
    assert_eq!(pattern_match(&ctx, &none), 0);
}

#[test]
fn first_context_sets_an_empty_pattern() {
    let mut book = PatternBook::new();
    let ctx = build_context(&vec![num(1.0), num(2.0)], &vec![]);
    book.bootstrap_pattern_if_empty(1001, &ctx);
    assert_eq!(book.min_depth_of(1001), 2);
    let later = build_context(&vec![], &vec![]);
    book.bootstrap_pattern_if_empty(1001, &later);
    assert_eq!(book.min_depth_of(1001), 2);
    book.ensure_skill_known(1002);
    assert_eq!(book.min_depth_of(1002), 0);
    assert_eq!(book.min_depth_of(1003), 0);
}

#[test]
fn types_and_compatibility() {
    assert_eq!(value_type(&num(1.0)), ValueType::Number);
    assert_eq!(value_type(&UVal::Nil), ValueType::Any);
    assert!(type_compatible(&ValueType::Any, &ValueType::Bool));
    assert!(type_compatible(&ValueType::Number, &ValueType::Number));
    assert!(!type_compatible(&ValueType::Number, &ValueType::Bool));
}

#[test]
fn signatures_apply_and_record_missing_inputs() {
    let sigs = base_signatures();
    assert_eq!(sigs.len(), 13);
    let add = sigs.get(&1).unwrap();
    let mut stack = vec![ValueType::Number];
    let mut inputs = vec![];
    assert_eq!(apply_signature(add, &mut stack, &mut inputs), Some(()));
    assert_eq!(stack, vec![ValueType::Number]);
    assert_eq!(inputs, vec![ValueType::Number]);
    let mut bad = vec![ValueType::Bool, ValueType::Bool];
    assert_eq!(apply_signature(add, &mut bad, &mut vec![]), None);
}

#[test]
fn stack_shuffles_pad_with_any() {
    let (mut s, mut i) = (vec![ValueType::Number], vec![]);
    apply_stack_swap(&mut s, &mut i);
    assert_eq!(s, vec![ValueType::Any, ValueType::Number]);
    assert_eq!(i, vec![ValueType::Any]);
    let (mut s, mut i) = (vec![], vec![]);
    apply_stack_dup(&mut s, &mut i);
    assert_eq!((s, i), (vec![ValueType::Any, ValueType::Any], vec![ValueType::Any]));
    let (mut s, mut i) = (vec![ValueType::Bool, ValueType::Number], vec![]);
    apply_stack_over(&mut s, &mut i);
    assert_eq!(s, vec![ValueType::Bool, ValueType::Number, ValueType::Bool]);
    assert!(i.is_empty());
    let (mut s, mut i) = (vec![], vec![]);
    apply_stack_drop(&mut s, &mut i);
    assert_eq!((s, i), (vec![], vec![ValueType::Any]));
}

#[test]
fn macro_signatures_are_inferred() {
    let known = base_signatures();
    let inferred = std::collections::HashMap::new();
    let body = vec![
        op(Op::Literal),
        2.0f64.to_bits(),
        op(Op::Mul),
        op(Op::Literal),
        1.0f64.to_bits(),
        op(Op::Add),
        op(Op::Halt),
        op(Op::Not),
    ];
    let sig = infer_macro_signature(&body, &known, &inferred).unwrap();
    assert_eq!(sig.inputs, vec![ValueType::Number]);
    assert_eq!(sig.outputs, vec![ValueType::Number]);
    let any_for_number = vec![op(Op::Dup), op(Op::Mul)];
    assert!(infer_macro_signature(&any_for_number, &known, &inferred).is_none());
    let uses_unknown = vec![1234.0f64.to_bits()];
    assert!(infer_macro_signature(&uses_unknown, &known, &inferred).is_none());
    let copy = Signature::new(vec![ValueType::Bool], vec![]).copy();
    assert_eq!(copy.inputs, vec![ValueType::Bool]);
}

#[test]
fn skill_signatures_reach_a_fixpoint() {
    let mut lib = SkillLibrary::new();
    lib.define_skill(2000, vec![1001.0f64.to_bits(), op(Op::Not)]);
    lib.define_skill(1001, vec![op(Op::Gt)]);
    lib.define_skill(3000, vec![4.0f64.to_bits()]);
    let sigs = infer_skill_signatures(&lib, &base_signatures());
    assert_eq!(sigs.len(), 2);
    assert_eq!(sigs.get(&2000).unwrap().inputs, vec![ValueType::Number, ValueType::Number]);
    assert_eq!(sigs.get(&2000).unwrap().outputs, vec![ValueType::Bool]);
    assert!(sigs.get(&3000).is_none());
}

#[test]
fn search_step_and_distance() {
    let sigs = base_signatures();
    let two = vec![ValueType::Number, ValueType::Number];
    assert_eq!(apply_op(&sigs, 1, &two), Some(vec![ValueType::Number]));
    assert_eq!(apply_op(&sigs, 1, &vec![ValueType::Number]), None);
    assert_eq!(apply_op(&sigs, 18, &vec![ValueType::Bool, ValueType::Number]), Some(vec![ValueType::Number, ValueType::Bool]));
    assert_eq!(apply_op(&sigs, 21, &vec![]), None);
    assert_eq!(apply_op(&sigs, 16, &two), None);
    assert_eq!(stack_distance(&two, &vec![ValueType::Number]), 1);
    assert_eq!(stack_distance(&vec![ValueType::Bool, ValueType::Number], &vec![ValueType::Number, ValueType::Number, ValueType::Any]), 2);
}

#[test]
fn programs_get_preamble_and_halt() {
    let input = vec![num(3.0), UVal::Nil, num(4.0)];
    let program = build_program(&input, &vec![op(Op::Add)]);
    assert_eq!(program, vec![op(Op::Literal), 3.0f64.to_bits(), op(Op::Literal), 4.0f64.to_bits(), op(Op::Add), HALT_CELL]);
    assert_eq!(preamble_len(&input), 4);
    let ends = build_program(&vec![], &vec![op(Op::Add), HALT_CELL]);
    assert_eq!(ends, vec![op(Op::Add), HALT_CELL]);
}

#[test]
fn registering_reuses_identical_bodies() {
    let mut lib = SkillLibrary::new();
    let a = register_or_find_skill(&mut lib, vec![op(Op::Add)], 1500);
    assert_eq!(a, 1500);
    let b = register_or_find_skill(&mut lib, vec![op(Op::Add)], 1600);
    assert_eq!(b, 1500);
    assert!(!lib.contains(1600));
    let c = register_or_find_skill(&mut lib, vec![op(Op::Sub)], 1600);
    assert_eq!(c, 1600);
}

#[test]
fn speculation_replaces_a_window_with_a_skill() {
    let mut lib = SkillLibrary::new();
    let mut program = vec![op(Op::Literal), 2.0f64.to_bits(), op(Op::Add), op(Op::Sub), op(Op::Mul), HALT_CELL];
    assert_eq!(speculate_new_skill(&mut lib, &mut program, 2, 2, 4, 1700), None);
    let id = speculate_new_skill(&mut lib, &mut program, 2, 2, 3, 1700);
    assert_eq!(id, Some(1700));
    assert_eq!(program, vec![op(Op::Literal), 2.0f64.to_bits(), op(Op::Add), 1700.0f64.to_bits(), HALT_CELL]);
    assert_eq!(lib.get_skill(1700), Some(&vec![op(Op::Sub), op(Op::Mul)]));
}

#[test]
fn mutation_swaps_or_replaces_inside_the_logic() {
    let base = vec![op(Op::Literal), 2.0f64.to_bits(), op(Op::Add), op(Op::Sub), HALT_CELL];
    let mut p = base.clone();
    mutate_program(&mut p, 2, 2, Some(3), 0);
    assert_eq!(p, vec![op(Op::Literal), 2.0f64.to_bits(), op(Op::Sub), op(Op::Add), HALT_CELL]);
    let mut q = base.clone();
    mutate_program(&mut q, 2, 3, None, op(Op::Mul));
    assert_eq!(q[3], op(Op::Mul));
    let mut r = base.clone();
    mutate_program(&mut r, 2, 4, None, op(Op::Mul));
    assert_eq!(r, base);
}

#[test]
fn trial_runs_leave_the_machine_program() {
    let mut vm = SoulGainVM::new(vec![HALT_CELL]);
    let program = build_program(&vec![num(2.0), num(5.0)], &vec![op(Op::Mul)]);
    let out = execute_program(&mut vm, &mut FloatHost, &program);
    assert_eq!(out, vec![num(10.0)]);
    assert_eq!(vm.program, vec![HALT_CELL]);
    assert_eq!(vm.ip, 0);
}

#[test]
fn pruning_drops_useless_cells() {
    let vm = SoulGainVM::new(vec![]);
    let logic = vec![op(Op::Reward), op(Op::Inc), op(Op::Reward)];
    let pruned = Pruner::prune(&mut FloatHost, &vm, &logic, &vec![num(1.0)], &vec![num(2.0)]);
    assert_eq!(pruned, vec![op(Op::Inc)]);
    let pairs = vec![op(Op::Dup), op(Op::Drop), op(Op::Inc)];
    let stuck = Pruner::prune(&mut FloatHost, &vm, &pairs, &vec![num(1.0)], &vec![num(2.0)]);
    assert_eq!(stuck, pairs);
    let kept = Pruner::prune(&mut FloatHost, &vm, &vec![op(Op::Inc)], &vec![num(1.0)], &vec![num(2.0)]);
    assert_eq!(kept, vec![op(Op::Inc)]);
}

#[test]
fn solved_candidates_collapse_to_one_skill() {
    let mut lib = SkillLibrary::new();
    let program = vec![op(Op::Literal), 3.0f64.to_bits(), op(Op::Inc), op(Op::Dup), HALT_CELL];
    let (optimized, id) = finalize_solution(&mut lib, &program, 2, 4321);
    assert_eq!(id, Some(4321));
    assert_eq!(optimized, vec![op(Op::Literal), 3.0f64.to_bits(), 4321.0f64.to_bits(), HALT_CELL]);
    assert_eq!(lib.get_skill(4321), Some(&vec![op(Op::Inc), op(Op::Dup)]));
    let (again, reused) = finalize_solution(&mut lib, &program, 2, 5000);
    assert_eq!(reused, Some(4321));
    assert_eq!(again, optimized);
    assert!(!lib.contains(5000));
    let bare = vec![op(Op::Literal), 3.0f64.to_bits(), HALT_CELL];
    let (kept, none) = finalize_solution(&mut lib, &bare, 2, 5000);
    assert_eq!((kept, none), (bare, None));
}

#[test]
fn spike_timing_updates_by_event_kind() {
    let add = Event::Opcode { opcode: 1, stack_depth: 0 };
    let sub = Event::Opcode { opcode: 2, stack_depth: 1 };
    let past = vec![add, sub, add];
    let reward = stdp_updates(Event::Reward(100), &past);
    assert_eq!(reward.len(), 3);
    assert_eq!(reward[1], EdgeUpdate { from: sub, to: Event::Reward(100), rule: UpdateRule::Reward(100), past_index: 1 });
    assert!(stdp_updates(Event::Reward(0), &past).is_empty());
    let err = Event::Error(soulgain::event::VMError::StackUnderflow);
    assert!(stdp_updates(err, &past).iter().all(|u| u.rule == UpdateRule::Penalty && u.to == err));
    let plain = stdp_updates(Event::MemoryRead, &vec![add]);
    assert_eq!(
        plain,
        vec![
            EdgeUpdate { from: add, to: Event::MemoryRead, rule: UpdateRule::Potentiate, past_index: 0 },
            EdgeUpdate { from: Event::MemoryRead, to: add, rule: UpdateRule::Depress, past_index: 0 },
        ]
    );
    assert_eq!(normalization_sources(Event::MemoryRead, &past), vec![add, sub]);
    assert!(normalization_sources(Event::Reward(0), &past).is_empty());
}

#[test]
fn empty_logic_still_gets_a_halt() {
    let program = build_program(&vec![num(8.0)], &vec![]);
    assert_eq!(program, vec![op(Op::Literal), 8.0f64.to_bits(), HALT_CELL]);
}

#[test]
fn strategy_follows_draw_and_best_fitness() {
    let b = |v: f64| v.to_bits();
    assert_eq!(choose_strategy(b(0.0), b(0.3)), Strategy::Invent);
    assert_eq!(choose_strategy(b(0.0), b(0.7)), Strategy::Random);
    assert_eq!(choose_strategy(b(0.05), b(0.7)), Strategy::Mutate);
    assert_eq!(choose_strategy(b(0.5), b(0.1)), Strategy::Speculate);
    assert_eq!(choose_strategy(b(0.5), b(0.3)), Strategy::Mutate);
}

#[test]
fn search_state_keeps_the_best_and_skips_repeats() {
    let b = |v: f64| v.to_bits();
    let mut s = SearchState::new();
    assert!(s.mark_tried(vec![1, 2]));
    assert!(!s.mark_tried(vec![1, 2]));
    let a = s.record_trial(vec![7], b(0.05));
    assert!(a.improved && !a.reward && !a.solved);
    let a = s.record_trial(vec![8], b(0.5));
    assert!(a.improved && a.reward && !a.solved);
    let a = s.record_trial(vec![9], b(0.2));
    assert!(!a.improved && !a.reward);
    assert_eq!(s.best_fitness, b(0.5));
    assert_eq!(s.best_program, Some(vec![8]));
    let a = s.record_trial(vec![10], b(1.0));
    assert!(a.solved && a.improved);
    assert!(!s.record_trial(vec![11], b(f64::NAN)).solved);
}
