//! The skill library: macro bodies stored under skill ids.
use crate::op::SKILL_OPCODE_BASE;
use std::collections::HashMap;
use vstd::prelude::*;

verus! {

broadcast use vstd::std_specs::hash::group_hash_axioms;

/// Macro bodies under skill ids, with the ids in the order they were first
/// defined.
#[derive(Debug, Clone)]
pub struct SkillLibrary {
    pub macros: HashMap<i64, Vec<u64>>,
    pub order: Vec<i64>,
}

impl SkillLibrary {
    /// Every id is a skill opcode, and `order` lists each id once.
    pub open spec fn wf(&self) -> bool {
        &&& self.order@.no_duplicates()
        &&& forall|k: i64| self.macros@.contains_key(k) <==> self.order@.contains(k)
        &&& forall|k: i64| #[trigger] self.macros@.contains_key(k) ==> k >= SKILL_OPCODE_BASE
    }

    /// The bodies, as cell sequences.
    pub open spec fn view(&self) -> Map<i64, Seq<u64>> {
        Map::new(|k: i64| self.macros@.contains_key(k), |k: i64| self.macros@[k]@)
    }

    pub fn new() -> (r: SkillLibrary)
        ensures
            r.wf(),
            r@ == Map::<i64, Seq<u64>>::empty(),
            r.order@ == Seq::<i64>::empty(),
    {
        let r = SkillLibrary { macros: HashMap::new(), order: Vec::new() };
        assert(r@ =~= Map::<i64, Seq<u64>>::empty());
        r
    }

    /// Stores `body` under `id`, replacing an earlier body.
    pub fn define_skill(&mut self, id: i64, body: Vec<u64>)
        requires
            old(self).wf(),
            id >= SKILL_OPCODE_BASE,
        ensures
            final(self).wf(),
            final(self)@ == old(self)@.insert(id, body@),
            old(self)@.contains_key(id) ==> final(self).order@ == old(self).order@,
            !old(self)@.contains_key(id) ==> final(self).order@ == old(self).order@.push(id),
    {
        if !self.macros.contains_key(&id) {
            self.order.push(id);
            proof {
                assert forall|i: int, j: int|
                    0 <= i < j < self.order@.len() implies self.order@[i] != self.order@[j] by {
                    if j == self.order@.len() - 1 {
                        assert(old(self).order@.contains(self.order@[i]));
                    }
                }
                assert forall|k: i64| self.order@.contains(k) implies old(self).order@.contains(k)
                    || k == id by {
                    let w = choose|w: int| 0 <= w < self.order@.len() && self.order@[w] == k;
                    if w < old(self).order@.len() {
                        assert(old(self).order@[w] == k);
                    }
                }
                assert(self.order@[self.order@.len() - 1] == id);
                assert forall|k: i64| old(self).order@.contains(k) implies self.order@.contains(
                    k,
                ) by {
                    let w = choose|w: int| 0 <= w < old(self).order@.len() && old(self).order@[w] == k;
                    assert(self.order@[w] == k);
                }
            }
        }
        self.macros.insert(id, body);
        assert(self@ =~= old(self)@.insert(id, body@));
    }

    /// The body stored under `id`, if any.
    pub fn get_skill(&self, id: i64) -> (r: Option<&Vec<u64>>)
        ensures
            r is Some == self@.contains_key(id),
            r matches Some(b) ==> b@ == self@[id],
    {
        self.macros.get(&id)
    }

    /// Whether a body is stored under `id`.
    pub fn contains(&self, id: i64) -> (r: bool)
        ensures
            r == self@.contains_key(id),
    {
        self.macros.contains_key(&id)
    }

    /// The ids, in the order they were first defined.
    pub fn ids(&self) -> (r: Vec<i64>)
        ensures
            r@ == self.order@,
    {
        let mut r: Vec<i64> = Vec::new();
        let mut i: usize = 0;
        while i < self.order.len()
            invariant
                i <= self.order@.len(),
                r@ == self.order@.subrange(0, i as int),
            decreases self.order@.len() - i,
        {
            r.push(self.order[i]);
            i = i + 1;
            assert(r@ =~= self.order@.subrange(0, i as int));
        }
        assert(self.order@.subrange(0, i as int) =~= self.order@);
        r
    }

    /// An independent copy of the library.
    pub fn duplicate(&self) -> (r: SkillLibrary)
        requires
            self.wf(),
        ensures
            r.wf(),
            r@ == self@,
            r.order@ == self.order@,
    {
        let r = SkillLibrary { macros: self.macros.clone(), order: self.ids() };
        assert(r@ =~= self@);
        r
    }

    pub fn len(&self) -> (r: usize)
        ensures
            r == self.order@.len(),
    {
        self.order.len()
    }
}

} // verus!
