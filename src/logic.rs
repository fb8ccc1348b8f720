//! Type signatures of opcodes and skills: what each takes from the stack and
//! what it leaves, inferred for skill bodies by abstract execution.
use crate::number::{decode_cell, decoded};
use crate::op::{op_of, Op, SKILL_OPCODE_BASE};
use crate::skills::SkillLibrary;
use crate::value::UVal;
use std::collections::HashMap;
use vstd::prelude::*;

verus! {

broadcast use vstd::std_specs::hash::group_hash_axioms;

#[derive(Clone, Copy, Debug, PartialEq, Eq, Hash, Structural)]
pub enum ValueType {
    Number,
    Bool,
    String,
    Any,
}

pub open spec fn type_of(v: UVal) -> ValueType {
    match v {
        UVal::Number(_) => ValueType::Number,
        UVal::Bool(_) => ValueType::Bool,
        UVal::String(_) => ValueType::String,
        _ => ValueType::Any,
    }
}

/// The type of a value; `Nil` and objects are `Any`.
pub fn value_type(v: &UVal) -> (r: ValueType)
    ensures
        r == type_of(*v),
{
    match v {
        UVal::Number(_) => ValueType::Number,
        UVal::Bool(_) => ValueType::Bool,
        UVal::String(_) => ValueType::String,
        _ => ValueType::Any,
    }
}

/// What an opcode or skill takes from the stack (deepest first) and leaves
/// on it.
#[derive(Debug)]
pub struct Signature {
    pub inputs: Vec<ValueType>,
    pub outputs: Vec<ValueType>,
}

/// A signature as two type sequences: inputs and outputs.
pub type SigView = (Seq<ValueType>, Seq<ValueType>);

impl Signature {
    pub open spec fn view(&self) -> SigView {
        (self.inputs@, self.outputs@)
    }

    pub fn new(inputs: Vec<ValueType>, outputs: Vec<ValueType>) -> (r: Signature)
        ensures
            r@ == (inputs@, outputs@),
    {
        Signature { inputs, outputs }
    }

    pub fn copy(&self) -> (r: Signature)
        ensures
            r@ == self@,
    {
        Signature { inputs: copy_types(&self.inputs), outputs: copy_types(&self.outputs) }
    }
}

fn copy_types(v: &Vec<ValueType>) -> (r: Vec<ValueType>)
    ensures
        r@ == v@,
{
    let mut r: Vec<ValueType> = Vec::new();
    let mut i: usize = 0;
    while i < v.len()
        invariant
            i <= v@.len(),
            r@ == v@.subrange(0, i as int),
        decreases v@.len() - i,
    {
        r.push(v[i]);
        i = i + 1;
        assert(r@ =~= v@.subrange(0, i as int));
    }
    assert(v@.subrange(0, i as int) =~= v@);
    r
}

pub open spec fn sig_map(m: Map<i64, Signature>) -> Map<i64, SigView> {
    m.map_values(|s: Signature| s@)
}

pub open spec fn compatible(expected: ValueType, actual: ValueType) -> bool {
    expected == ValueType::Any || expected == actual
}

/// A value of type `actual` may stand where `expected` is asked for.
pub fn type_compatible(expected: &ValueType, actual: &ValueType) -> (r: bool)
    ensures
        r == compatible(*expected, *actual),
{
    match expected {
        ValueType::Any => true,
        _ => *expected == *actual,
    }
}

/// The signatures of the primitive opcodes that compute on values.
pub open spec fn base_signature(code: i64) -> Option<SigView> {
    let n2 = seq![ValueType::Number, ValueType::Number];
    let a2 = seq![ValueType::Any, ValueType::Any];
    let n1 = seq![ValueType::Number];
    let a1 = seq![ValueType::Any];
    let b1 = seq![ValueType::Bool];
    if code == 1 || code == 2 || code == 3 || code == 26 {
        Some((n2, n1))
    } else if code == 27 || code == 28 {
        Some((n1, n1))
    } else if code == 9 {
        Some((n2, b1))
    } else if code == 5 || code == 22 || code == 23 || code == 24 {
        Some((a2, b1))
    } else if code == 10 || code == 25 {
        Some((a1, b1))
    } else {
        None
    }
}

fn sig2(a: ValueType, b: ValueType, out: ValueType) -> (r: Signature)
    ensures
        r@ == (seq![a, b], seq![out]),
{
    let r = Signature::new(vec![a, b], vec![out]);
    assert(r@.0 =~= seq![a, b]);
    assert(r@.1 =~= seq![out]);
    r
}

fn sig1(a: ValueType, out: ValueType) -> (r: Signature)
    ensures
        r@ == (seq![a], seq![out]),
{
    let r = Signature::new(vec![a], vec![out]);
    assert(r@.0 =~= seq![a]);
    assert(r@.1 =~= seq![out]);
    r
}

/// The signatures of `Add`, `Sub`, `Mul`, `Mod`, `Inc`, `Dec`, `Eq`, `Gt`,
/// `Not`, `And`, `Or`, `Xor` and `IsZero`.
pub fn base_signatures() -> (r: HashMap<i64, Signature>)
    ensures
        forall|code: i64| #[trigger]
            sig_map(r@).contains_key(code) == (base_signature(code) is Some),
        forall|code: i64| #[trigger]
            sig_map(r@).contains_key(code) ==> sig_map(r@)[code] == base_signature(code)->0,
        forall|code: i64| #[trigger] r@.contains_key(code) ==> code < SKILL_OPCODE_BASE,
{
    let n = ValueType::Number;
    let a = ValueType::Any;
    let b = ValueType::Bool;
    let mut m: HashMap<i64, Signature> = HashMap::new();
    m.insert(Op::Add.as_i64(), sig2(n, n, n));
    m.insert(Op::Sub.as_i64(), sig2(n, n, n));
    m.insert(Op::Mul.as_i64(), sig2(n, n, n));
    m.insert(Op::Mod.as_i64(), sig2(n, n, n));
    m.insert(Op::Inc.as_i64(), sig1(n, n));
    m.insert(Op::Dec.as_i64(), sig1(n, n));
    m.insert(Op::Eq.as_i64(), sig2(a, a, b));
    m.insert(Op::Gt.as_i64(), sig2(n, n, b));
    m.insert(Op::Not.as_i64(), sig1(a, b));
    m.insert(Op::And.as_i64(), sig2(a, a, b));
    m.insert(Op::Or.as_i64(), sig2(a, a, b));
    m.insert(Op::Xor.as_i64(), sig2(a, a, b));
    m.insert(Op::IsZero.as_i64(), sig1(a, b));
    m
}

/// Takes the signature's inputs off `stack`, last first; an input that the
/// stack no longer holds becomes an input of the whole (appended to
/// `inputs`). `None` when a value on the stack does not fit.
pub open spec fn consume(expected: Seq<ValueType>, stack: Seq<ValueType>, inputs: Seq<ValueType>) -> Option<
    (Seq<ValueType>, Seq<ValueType>),
>
    decreases expected.len(),
{
    if expected.len() == 0 {
        Some((stack, inputs))
    } else if stack.len() > 0 {
        if compatible(expected.last(), stack.last()) {
            consume(expected.drop_last(), stack.drop_last(), inputs)
        } else {
            None
        }
    } else {
        consume(expected.drop_last(), stack, inputs.push(expected.last()))
    }
}

/// The stack and inputs after a signature: its inputs consumed, its outputs
/// pushed.
pub open spec fn applied(sig: SigView, stack: Seq<ValueType>, inputs: Seq<ValueType>) -> Option<
    (Seq<ValueType>, Seq<ValueType>),
> {
    match consume(sig.0, stack, inputs) {
        None => None,
        Some((s, i)) => Some((s + sig.1, i)),
    }
}

/// Applies a signature to an abstract stack, recording the inputs that the
/// stack lacked.
pub fn apply_signature(
    signature: &Signature,
    stack: &mut Vec<ValueType>,
    inputs: &mut Vec<ValueType>,
) -> (r: Option<()>)
    ensures
        r is Some == applied(signature@, old(stack)@, old(inputs)@) is Some,
        r is Some ==> applied(signature@, old(stack)@, old(inputs)@) == Some(
            (final(stack)@, final(inputs)@),
        ),
{
    let mut k: usize = signature.inputs.len();
    assert(signature.inputs@.subrange(0, k as int) =~= signature.inputs@);
    while k > 0
        invariant
            k <= signature.inputs@.len(),
            consume(signature.inputs@, old(stack)@, old(inputs)@) == consume(
                signature.inputs@.subrange(0, k as int),
                stack@,
                inputs@,
            ),
        decreases k,
    {
        let expected = signature.inputs[k - 1];
        let ghost pre = signature.inputs@.subrange(0, k as int);
        assert(pre.drop_last() =~= signature.inputs@.subrange(0, k - 1));
        if stack.len() > 0 {
            let actual = stack.pop().unwrap();
            if !type_compatible(&expected, &actual) {
                return None;
            }
        } else {
            inputs.push(expected);
        }
        k = k - 1;
    }
    assert(signature.inputs@.subrange(0, 0) =~= Seq::<ValueType>::empty());
    let ghost consumed = stack@;
    let mut j: usize = 0;
    while j < signature.outputs.len()
        invariant
            j <= signature.outputs@.len(),
            stack@ == consumed + signature.outputs@.subrange(0, j as int),
        decreases signature.outputs@.len() - j,
    {
        stack.push(signature.outputs[j]);
        j = j + 1;
        assert(stack@ =~= consumed + signature.outputs@.subrange(0, j as int));
    }
    assert(signature.outputs@.subrange(0, j as int) =~= signature.outputs@);
    Some(())
}

/// Pads the stack with `Any` values, each also an input of the whole, until
/// it holds `n` values.
pub open spec fn pad_to(stack: Seq<ValueType>, inputs: Seq<ValueType>, n: nat) -> (
    Seq<ValueType>,
    Seq<ValueType>,
)
    decreases n - stack.len(),
{
    if stack.len() >= n {
        (stack, inputs)
    } else {
        pad_to(stack.push(ValueType::Any), inputs.push(ValueType::Any), n)
    }
}

pub open spec fn swap_effect(stack: Seq<ValueType>, inputs: Seq<ValueType>) -> (
    Seq<ValueType>,
    Seq<ValueType>,
) {
    let (s, i) = pad_to(stack, inputs, 2);
    (s.drop_last().drop_last().push(s.last()).push(s[s.len() - 2]), i)
}

pub open spec fn dup_effect(stack: Seq<ValueType>, inputs: Seq<ValueType>) -> (
    Seq<ValueType>,
    Seq<ValueType>,
) {
    let (s, i) = pad_to(stack, inputs, 1);
    (s.push(s.last()), i)
}

pub open spec fn over_effect(stack: Seq<ValueType>, inputs: Seq<ValueType>) -> (
    Seq<ValueType>,
    Seq<ValueType>,
) {
    let (s, i) = pad_to(stack, inputs, 2);
    (s.push(s[s.len() - 2]), i)
}

pub open spec fn drop_effect(stack: Seq<ValueType>, inputs: Seq<ValueType>) -> (
    Seq<ValueType>,
    Seq<ValueType>,
) {
    let (s, i) = pad_to(stack, inputs, 1);
    (s.drop_last(), i)
}

proof fn lemma_pad_len(stack: Seq<ValueType>, inputs: Seq<ValueType>, n: nat)
    ensures
        pad_to(stack, inputs, n).0.len() >= n,
        stack.len() >= n ==> pad_to(stack, inputs, n) == (stack, inputs),
    decreases n - stack.len(),
{
    if stack.len() < n {
        lemma_pad_len(stack.push(ValueType::Any), inputs.push(ValueType::Any), n);
    }
}

fn pad_stack(stack: &mut Vec<ValueType>, inputs: &mut Vec<ValueType>, n: usize)
    requires
        n <= 2,
    ensures
        (final(stack)@, final(inputs)@) == pad_to(old(stack)@, old(inputs)@, n as nat),
        final(stack)@.len() >= n,
{
    while stack.len() < n
        invariant
            n <= 2,
            pad_to(old(stack)@, old(inputs)@, n as nat) == pad_to(stack@, inputs@, n as nat),
        decreases n - stack@.len(),
    {
        inputs.push(ValueType::Any);
        stack.push(ValueType::Any);
    }
    proof {
        lemma_pad_len(stack@, inputs@, n as nat);
    }
}

/// `Swap` on an abstract stack; missing values become `Any` inputs.
pub fn apply_stack_swap(stack: &mut Vec<ValueType>, inputs: &mut Vec<ValueType>) -> (r: Option<()>)
    ensures
        r is Some,
        (final(stack)@, final(inputs)@) == swap_effect(old(stack)@, old(inputs)@),
{
    pad_stack(stack, inputs, 2);
    let b = stack.pop().unwrap();
    let a = stack.pop().unwrap();
    stack.push(b);
    stack.push(a);
    Some(())
}

/// `Dup` on an abstract stack; a missing value becomes an `Any` input.
pub fn apply_stack_dup(stack: &mut Vec<ValueType>, inputs: &mut Vec<ValueType>) -> (r: Option<()>)
    ensures
        r is Some,
        (final(stack)@, final(inputs)@) == dup_effect(old(stack)@, old(inputs)@),
{
    pad_stack(stack, inputs, 1);
    let top = stack[stack.len() - 1];
    stack.push(top);
    Some(())
}

/// `Over` on an abstract stack; missing values become `Any` inputs.
pub fn apply_stack_over(stack: &mut Vec<ValueType>, inputs: &mut Vec<ValueType>) -> (r: Option<()>)
    ensures
        r is Some,
        (final(stack)@, final(inputs)@) == over_effect(old(stack)@, old(inputs)@),
{
    pad_stack(stack, inputs, 2);
    let val = stack[stack.len() - 2];
    stack.push(val);
    Some(())
}

/// `Drop` on an abstract stack; a missing value becomes an `Any` input.
pub fn apply_stack_drop(stack: &mut Vec<ValueType>, inputs: &mut Vec<ValueType>) -> (r: Option<()>)
    ensures
        r is Some,
        (final(stack)@, final(inputs)@) == drop_effect(old(stack)@, old(inputs)@),
{
    pad_stack(stack, inputs, 1);
    stack.pop();
    Some(())
}

/// The signature used for opcode `code`: a skill's from the inferred ones,
/// else from the known ones.
pub open spec fn lookup(code: i64, known: Map<i64, SigView>, inferred: Map<i64, SigView>) -> Option<
    SigView,
> {
    if code >= SKILL_OPCODE_BASE && inferred.contains_key(code) {
        Some(inferred[code])
    } else if known.contains_key(code) {
        Some(known[code])
    } else {
        None
    }
}

/// Abstract execution of a body from cell `idx`: the inputs that it needs and
/// the types it leaves, or `None` when a cell does not decode, an opcode has
/// no signature, a type does not fit, or a literal lacks its operand.
/// Execution ends at `Halt` or at the end of the body.
pub open spec fn infer_from(
    cells: Seq<u64>,
    idx: nat,
    stack: Seq<ValueType>,
    inputs: Seq<ValueType>,
    known: Map<i64, SigView>,
    inferred: Map<i64, SigView>,
) -> Option<SigView>
    decreases cells.len() - idx,
{
    if idx >= cells.len() {
        Some((inputs, stack))
    } else {
        match decoded(cells[idx as int]) {
            None => None,
            Some(code) => {
                if code == 8 {
                    Some((inputs, stack))
                } else if code == 0 {
                    if idx + 1 >= cells.len() {
                        None
                    } else {
                        infer_from(cells, idx + 2, stack.push(ValueType::Number), inputs, known, inferred)
                    }
                } else if code < SKILL_OPCODE_BASE && op_of(code) is None {
                    None
                } else if code == 18 {
                    let (s, i) = swap_effect(stack, inputs);
                    infer_from(cells, idx + 1, s, i, known, inferred)
                } else if code == 19 {
                    let (s, i) = dup_effect(stack, inputs);
                    infer_from(cells, idx + 1, s, i, known, inferred)
                } else if code == 20 {
                    let (s, i) = over_effect(stack, inputs);
                    infer_from(cells, idx + 1, s, i, known, inferred)
                } else if code == 21 {
                    let (s, i) = drop_effect(stack, inputs);
                    infer_from(cells, idx + 1, s, i, known, inferred)
                } else {
                    match lookup(code, known, inferred) {
                        None => None,
                        Some(sig) => match applied(sig, stack, inputs) {
                            None => None,
                            Some((s, i)) => infer_from(cells, idx + 1, s, i, known, inferred),
                        },
                    }
                }
            },
        }
    }
}

/// The signature of a skill body.
pub open spec fn macro_signature(
    cells: Seq<u64>,
    known: Map<i64, SigView>,
    inferred: Map<i64, SigView>,
) -> Option<SigView> {
    infer_from(cells, 0, Seq::empty(), Seq::empty(), known, inferred)
}

fn lookup_signature<'a>(
    code: i64,
    known: &'a HashMap<i64, Signature>,
    inferred: &'a HashMap<i64, Signature>,
) -> (r: Option<&'a Signature>)
    ensures
        r is Some == lookup(code, sig_map(known@), sig_map(inferred@)) is Some,
        r matches Some(s) ==> lookup(code, sig_map(known@), sig_map(inferred@)) == Some(s@),
{
    if code >= SKILL_OPCODE_BASE {
        match inferred.get(&code) {
            Some(s) => {
                return Some(s);
            },
            None => {},
        }
    }
    known.get(&code)
}

/// Infers the signature of a skill body by running it on an abstract stack of
/// types.
pub fn infer_macro_signature(
    program: &Vec<u64>,
    known: &HashMap<i64, Signature>,
    inferred: &HashMap<i64, Signature>,
) -> (r: Option<Signature>)
    ensures
        r is Some == macro_signature(program@, sig_map(known@), sig_map(inferred@)) is Some,
        r matches Some(s) ==> macro_signature(program@, sig_map(known@), sig_map(inferred@))
            == Some(s@),
{
    let ghost kn = sig_map(known@);
    let ghost inf = sig_map(inferred@);
    let mut inputs: Vec<ValueType> = Vec::new();
    let mut stack: Vec<ValueType> = Vec::new();
    let mut idx: usize = 0;
    while idx < program.len()
        invariant
            idx <= program@.len(),
            kn == sig_map(known@),
            inf == sig_map(inferred@),
            macro_signature(program@, kn, inf) == infer_from(
                program@,
                idx as nat,
                stack@,
                inputs@,
                kn,
                inf,
            ),
        ensures
            kn == sig_map(known@),
            inf == sig_map(inferred@),
            macro_signature(program@, kn, inf) == infer_from(
                program@,
                idx as nat,
                stack@,
                inputs@,
                kn,
                inf,
            ),
            idx >= program@.len() || decoded(program@[idx as int]) == Some(8i64),
        decreases program@.len() - idx,
    {
        let raw = program[idx];
        let ghost cells = program@;
        let ghost at = idx as nat;
        assert(raw == cells[at as int]);
        let opcode = match decode_cell(raw) {
            Some(c) => c,
            None => {
                assert(infer_from(cells, at, stack@, inputs@, kn, inf) is None);
                return None;
            },
        };
        if opcode == 8 {
            break;
        }
        if opcode == 0 {
            if idx + 1 >= program.len() {
                return None;
            }
            stack.push(ValueType::Number);
            idx = idx + 2;
            continue;
        }
        if opcode < SKILL_OPCODE_BASE && Op::from_i64(opcode).is_none() {
            return None;
        }
        if opcode == 18 {
            apply_stack_swap(&mut stack, &mut inputs);
        } else if opcode == 19 {
            apply_stack_dup(&mut stack, &mut inputs);
        } else if opcode == 20 {
            apply_stack_over(&mut stack, &mut inputs);
        } else if opcode == 21 {
            apply_stack_drop(&mut stack, &mut inputs);
        } else {
            match lookup_signature(opcode, known, inferred) {
                Some(sig) => {
                    if apply_signature(sig, &mut stack, &mut inputs).is_none() {
                        return None;
                    }
                },
                None => {
                    return None;
                },
            }
        }
        idx = idx + 1;
    }
    Some(Signature::new(inputs, stack))
}

/// Growing the map of inferred signatures keeps every inference that
/// succeeded, when the known signatures are all of primitive opcodes.
pub proof fn lemma_infer_monotone(
    cells: Seq<u64>,
    idx: nat,
    stack: Seq<ValueType>,
    inputs: Seq<ValueType>,
    known: Map<i64, SigView>,
    m1: Map<i64, SigView>,
    m2: Map<i64, SigView>,
)
    requires
        m1.submap_of(m2),
        forall|k: i64| #[trigger] known.contains_key(k) ==> k < SKILL_OPCODE_BASE,
        infer_from(cells, idx, stack, inputs, known, m1) is Some,
    ensures
        infer_from(cells, idx, stack, inputs, known, m2) == infer_from(
            cells,
            idx,
            stack,
            inputs,
            known,
            m1,
        ),
    decreases cells.len() - idx,
{
    if idx < cells.len() {
        match decoded(cells[idx as int]) {
            None => {},
            Some(code) => {
                if code == 8 {
                } else if code == 0 {
                    if idx + 1 < cells.len() {
                        lemma_infer_monotone(
                            cells,
                            idx + 2,
                            stack.push(ValueType::Number),
                            inputs,
                            known,
                            m1,
                            m2,
                        );
                    }
                } else if code < SKILL_OPCODE_BASE && op_of(code) is None {
                } else if code == 18 {
                    let (s, i) = swap_effect(stack, inputs);
                    lemma_infer_monotone(cells, idx + 1, s, i, known, m1, m2);
                } else if code == 19 {
                    let (s, i) = dup_effect(stack, inputs);
                    lemma_infer_monotone(cells, idx + 1, s, i, known, m1, m2);
                } else if code == 20 {
                    let (s, i) = over_effect(stack, inputs);
                    lemma_infer_monotone(cells, idx + 1, s, i, known, m1, m2);
                } else if code == 21 {
                    let (s, i) = drop_effect(stack, inputs);
                    lemma_infer_monotone(cells, idx + 1, s, i, known, m1, m2);
                } else {
                    assert(lookup(code, known, m1) == lookup(code, known, m2));
                    match lookup(code, known, m1) {
                        None => {},
                        Some(sig) => match applied(sig, stack, inputs) {
                            None => {},
                            Some((s, i)) => {
                                lemma_infer_monotone(cells, idx + 1, s, i, known, m1, m2);
                            },
                        },
                    }
                }
            },
        }
    }
}

/// Every entry is a skill whose body has that signature given the entries,
/// and every skill left out has a body whose signature cannot be inferred
/// from them.
pub open spec fn inferred_fixpoint(
    skills: Map<i64, Seq<u64>>,
    known: Map<i64, SigView>,
    sigs: Map<i64, SigView>,
) -> bool {
    &&& forall|id: i64| #[trigger]
        sigs.contains_key(id) ==> skills.contains_key(id) && macro_signature(skills[id], known, sigs)
            == Some(sigs[id])
    &&& forall|id: i64| #[trigger]
        skills.contains_key(id) && !sigs.contains_key(id) ==> macro_signature(
            skills[id],
            known,
            sigs,
        ) is None
}

/// Infers the signatures of the skills, repeating until a pass over all of
/// them adds none, so that skills built from skills get theirs too.
pub fn infer_skill_signatures(skills: &SkillLibrary, known: &HashMap<i64, Signature>) -> (r: HashMap<
    i64,
    Signature,
>)
    requires
        skills.wf(),
        forall|k: i64| #[trigger] known@.contains_key(k) ==> k < SKILL_OPCODE_BASE,
    ensures
        inferred_fixpoint(skills@, sig_map(known@), sig_map(r@)),
{
    let ghost kn = sig_map(known@);
    let ids = skills.ids();
    let mut sigs: HashMap<i64, Signature> = HashMap::new();
    let mut changed = true;
    proof {
        assert(sig_map(sigs@) =~= Map::<i64, SigView>::empty());
    }
    while changed
        invariant
            skills.wf(),
            ids@ == skills.order@,
            kn == sig_map(known@),
            forall|k: i64| #[trigger] kn.contains_key(k) ==> k < SKILL_OPCODE_BASE,
            forall|id: i64| #[trigger]
                sigs@.contains_key(id) ==> skills@.contains_key(id) && macro_signature(
                    skills@[id],
                    kn,
                    sig_map(sigs@),
                ) == Some(sig_map(sigs@)[id]),
            !changed ==> forall|id: i64| #[trigger]
                skills@.contains_key(id) && !sigs@.contains_key(id) ==> macro_signature(
                    skills@[id],
                    kn,
                    sig_map(sigs@),
                ) is None,
            sigs@.dom().len() <= ids@.len(),
        decreases ids@.len() + 1 - sigs@.dom().len() - (if changed {
            0int
        } else {
            1int
        }),
    {
        changed = false;
        let ghost start = sigs@;
        let mut i: usize = 0;
        while i < ids.len()
            invariant
                skills.wf(),
                ids@ == skills.order@,
                kn == sig_map(known@),
                forall|k: i64| #[trigger] kn.contains_key(k) ==> k < SKILL_OPCODE_BASE,
                i <= ids@.len(),
                forall|id: i64| #[trigger]
                    sigs@.contains_key(id) ==> skills@.contains_key(id) && macro_signature(
                        skills@[id],
                        kn,
                        sig_map(sigs@),
                    ) == Some(sig_map(sigs@)[id]),
                !changed ==> sigs@ == start,
                changed ==> sigs@.dom().len() > start.dom().len(),
                start.dom().subset_of(sigs@.dom()),
                !changed ==> forall|j: int|
                    0 <= j < i && skills@.contains_key(#[trigger] ids@[j]) && !sigs@.contains_key(
                        ids@[j],
                    ) ==> macro_signature(skills@[ids@[j]], kn, sig_map(sigs@)) is None,
            decreases ids@.len() - i,
        {
            let id = ids[i];
            proof {
                assert(skills.order@.contains(id));
            }
            if !sigs.contains_key(&id) {
                let body = skills.get_skill(id).unwrap();
                match infer_macro_signature(body, known, &sigs) {
                    Some(sig) => {
                        let ghost before = sigs@;
                        let ghost sig_view = sig@;
                        sigs.insert(id, sig);
                        proof {
                            assert(sig_map(sigs@) =~= sig_map(before).insert(id, sig_view));
                            assert(sig_map(before).submap_of(sig_map(sigs@)));
                            assert forall|k: i64| #[trigger]
                                sigs@.contains_key(k) implies skills@.contains_key(k)
                                && macro_signature(skills@[k], kn, sig_map(sigs@)) == Some(
                                sig_map(sigs@)[k],
                            ) by {
                                lemma_infer_monotone(
                                    skills@[k],
                                    0,
                                    Seq::empty(),
                                    Seq::empty(),
                                    kn,
                                    sig_map(before),
                                    sig_map(sigs@),
                                );
                            }
                            assert(sigs@.dom() =~= before.dom().insert(id));
                        }
                        changed = true;
                    },
                    None => {},
                }
            }
            i = i + 1;
        }
        proof {
            assert forall|k: i64| sigs@.dom().contains(k) implies ids@.to_set().contains(k) by {
                assert(skills.order@.contains(k));
            }
            vstd::set_lib::lemma_len_subset(sigs@.dom(), ids@.to_set());
            ids@.lemma_cardinality_of_set();
            if !changed {
                assert forall|id: i64| #[trigger]
                    skills@.contains_key(id) && !sigs@.contains_key(id) implies macro_signature(
                    skills@[id],
                    kn,
                    sig_map(sigs@),
                ) is None by {
                    assert(skills.order@.contains(id));
                    let j = choose|j: int| 0 <= j < ids@.len() && ids@[j] == id;
                    assert(ids@[j] == id);
                }
            }
        }
    }
    sigs
}

/// Takes `expected` off the stack, last first: `None` when the stack runs
/// out or a value does not fit.
pub open spec fn take_inputs(expected: Seq<ValueType>, stack: Seq<ValueType>) -> Option<
    Seq<ValueType>,
>
    decreases expected.len(),
{
    if expected.len() == 0 {
        Some(stack)
    } else if stack.len() == 0 {
        None
    } else if compatible(expected.last(), stack.last()) {
        take_inputs(expected.drop_last(), stack.drop_last())
    } else {
        None
    }
}

/// The abstract stack after opcode `op`, or `None` when it cannot run there.
pub open spec fn op_result(sigs: Map<i64, SigView>, op: i64, stack: Seq<ValueType>) -> Option<
    Seq<ValueType>,
> {
    if sigs.contains_key(op) {
        match take_inputs(sigs[op].0, stack) {
            None => None,
            Some(s) => Some(s + sigs[op].1),
        }
    } else if op == 18 {
        if stack.len() < 2 {
            None
        } else {
            Some(stack.drop_last().drop_last().push(stack.last()).push(stack[stack.len() - 2]))
        }
    } else if op == 19 {
        if stack.len() == 0 {
            None
        } else {
            Some(stack.push(stack.last()))
        }
    } else if op == 20 {
        if stack.len() < 2 {
            None
        } else {
            Some(stack.push(stack[stack.len() - 2]))
        }
    } else if op == 21 {
        if stack.len() == 0 {
            None
        } else {
            Some(stack.drop_last())
        }
    } else {
        None
    }
}

/// One step of the type-directed search: the stack of types after `op`.
pub fn apply_op(signatures: &HashMap<i64, Signature>, op: i64, stack: &Vec<ValueType>) -> (r:
    Option<Vec<ValueType>>)
    ensures
        r is Some == op_result(sig_map(signatures@), op, stack@) is Some,
        r matches Some(s) ==> op_result(sig_map(signatures@), op, stack@) == Some(s@),
{
    match signatures.get(&op) {
        Some(sig) => {
            let mut next = copy_types(stack);
            let mut k: usize = sig.inputs.len();
            assert(sig.inputs@.subrange(0, k as int) =~= sig.inputs@);
            while k > 0
                invariant
                    k <= sig.inputs@.len(),
                    signatures@.contains_key(op),
                    signatures@[op] == *sig,
                    take_inputs(sig.inputs@, stack@) == take_inputs(
                        sig.inputs@.subrange(0, k as int),
                        next@,
                    ),
                decreases k,
            {
                assert(sig.inputs@.subrange(0, k as int).drop_last() =~= sig.inputs@.subrange(
                    0,
                    k - 1,
                ));
                if next.len() == 0 {
                    return None;
                }
                let actual = next.pop().unwrap();
                if !type_compatible(&sig.inputs[k - 1], &actual) {
                    return None;
                }
                k = k - 1;
            }
            assert(sig.inputs@.subrange(0, 0) =~= Seq::<ValueType>::empty());
            let ghost taken = next@;
            let mut j: usize = 0;
            while j < sig.outputs.len()
                invariant
                    j <= sig.outputs@.len(),
                    signatures@.contains_key(op),
                    signatures@[op] == *sig,
                    next@ == taken + sig.outputs@.subrange(0, j as int),
                decreases sig.outputs@.len() - j,
            {
                next.push(sig.outputs[j]);
                j = j + 1;
                assert(next@ =~= taken + sig.outputs@.subrange(0, j as int));
            }
            assert(sig.outputs@.subrange(0, j as int) =~= sig.outputs@);
            Some(next)
        },
        None => {
            let len = stack.len();
            if op == 18 {
                if len < 2 {
                    return None;
                }
                let mut next = copy_types(stack);
                let b = next.pop().unwrap();
                let a = next.pop().unwrap();
                next.push(b);
                next.push(a);
                Some(next)
            } else if op == 19 {
                if len == 0 {
                    return None;
                }
                let mut next = copy_types(stack);
                next.push(stack[len - 1]);
                Some(next)
            } else if op == 20 {
                if len < 2 {
                    return None;
                }
                let mut next = copy_types(stack);
                next.push(stack[len - 2]);
                Some(next)
            } else if op == 21 {
                if len == 0 {
                    return None;
                }
                let mut next = copy_types(stack);
                next.pop();
                Some(next)
            } else {
                None
            }
        },
    }
}

/// Positions at which two type stacks differ, over their common length.
pub open spec fn mismatches(a: Seq<ValueType>, b: Seq<ValueType>, n: int) -> nat
    decreases n,
{
    if n <= 0 {
        0
    } else {
        mismatches(a, b, n - 1) + (if a[n - 1] != b[n - 1] {
            1nat
        } else {
            0nat
        })
    }
}

/// How far a stack of types is from the goal: the difference in length plus
/// the positions, from the bottom, at which they differ.
pub open spec fn distance(stack: Seq<ValueType>, goal: Seq<ValueType>) -> nat {
    let common = if stack.len() < goal.len() {
        stack.len()
    } else {
        goal.len()
    };
    let diff = if stack.len() > goal.len() {
        (stack.len() - goal.len()) as nat
    } else {
        (goal.len() - stack.len()) as nat
    };
    diff + mismatches(stack, goal, common as int)
}

pub fn stack_distance(stack: &Vec<ValueType>, goal: &Vec<ValueType>) -> (r: usize)
    ensures
        r == distance(stack@, goal@),
{
    let common = if stack.len() < goal.len() {
        stack.len()
    } else {
        goal.len()
    };
    let diff = if stack.len() > goal.len() {
        stack.len() - goal.len()
    } else {
        goal.len() - stack.len()
    };
    let mut count: usize = 0;
    let mut i: usize = 0;
    while i < common
        invariant
            i <= common,
            common <= stack@.len(),
            common <= goal@.len(),
            count == mismatches(stack@, goal@, i as int),
            count <= i,
        decreases common - i,
    {
        if stack[i] != goal[i] {
            count = count + 1;
        }
        i = i + 1;
    }
    proof {
        assert(diff + count <= stack@.len() + goal@.len() - 2 * common + common);
        assert(diff + count <= usize::MAX);
    }
    diff + count
}

} // verus!
