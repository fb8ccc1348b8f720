//! Context snapshots and the stack patterns that gate which skills the
//! `Intuition` opcode may pick.
use crate::event::{bucket_of, MAX_DEPTH_BUCKET};
use crate::value::{band_of, kind_of, number_band, value_kind, NumberBand, UVal, ValueKind};
use std::collections::HashMap;
use vstd::prelude::*;

verus! {

broadcast use vstd::std_specs::hash::group_hash_axioms;

/// The stack context in which a skill is considered: depth bucket, the kinds
/// and number bands of the top three values (top first), and the recent
/// opcodes.
#[derive(Clone, Debug)]
pub struct ContextSnapshot {
    pub depth_bucket: u8,
    pub top_types: [Option<ValueKind>; 3],
    pub top_number_bands: [Option<NumberBand>; 3],
    pub recent_opcodes: Vec<i64>,
}

/// The stack shape that a skill expects.
#[derive(Clone, Copy, Debug)]
pub struct SkillPattern {
    pub min_depth: u8,
    pub max_depth: u8,
    pub required_top_types: [Option<ValueKind>; 3],
}

/// Pattern match scores are counted in thirtieths.
pub const MATCH_SCALE: u8 = 30;

/// Share of the score for a depth in range, in thirtieths (0.4).
pub const DEPTH_SHARE: u8 = 12;

/// Share of the score for the required kinds, in thirtieths (0.6).
pub const TYPE_SHARE: u8 = 18;

/// Lowest score, in thirtieths, at which a skill is considered: the first
/// integer at or above 0.35.
pub const GATE_THIRTIETHS: u8 = 11;

/// Kind of the value `i` places below the top, if the stack is that deep.
pub open spec fn top_kind(stack: Seq<UVal>, i: int) -> Option<ValueKind> {
    if i < stack.len() {
        Some(kind_of(stack[stack.len() - 1 - i]))
    } else {
        None
    }
}

pub open spec fn top_band(stack: Seq<UVal>, i: int) -> Option<NumberBand> {
    if i < stack.len() {
        match stack[stack.len() - 1 - i] {
            UVal::Number(n) => Some(band_of(n)),
            _ => None,
        }
    } else {
        None
    }
}

pub open spec fn context_of(ctx: ContextSnapshot, stack: Seq<UVal>, recent: Seq<i64>) -> bool {
    &&& ctx.depth_bucket as usize == bucket_of(stack.len())
    &&& forall|i: int| 0 <= i < 3 ==> ctx.top_types@[i] == top_kind(stack, i)
    &&& forall|i: int| 0 <= i < 3 ==> ctx.top_number_bands@[i] == top_band(stack, i)
    &&& ctx.recent_opcodes@ == recent
}

fn kind_at(stack: &Vec<UVal>, i: usize) -> (r: Option<ValueKind>)
    requires
        i < 3,
    ensures
        r == top_kind(stack@, i as int),
{
    if i < stack.len() {
        Some(value_kind(&stack[stack.len() - 1 - i]))
    } else {
        None
    }
}

fn band_at(stack: &Vec<UVal>, i: usize) -> (r: Option<NumberBand>)
    requires
        i < 3,
    ensures
        r == top_band(stack@, i as int),
{
    if i < stack.len() {
        number_band(&stack[stack.len() - 1 - i])
    } else {
        None
    }
}

/// Snapshot of the stack's top and the recent opcodes.
pub fn build_context(stack: &Vec<UVal>, recent: &Vec<i64>) -> (r: ContextSnapshot)
    ensures
        context_of(r, stack@, recent@),
{
    let depth = if stack.len() < MAX_DEPTH_BUCKET {
        stack.len()
    } else {
        MAX_DEPTH_BUCKET
    };
    let top_types = [kind_at(stack, 0), kind_at(stack, 1), kind_at(stack, 2)];
    let top_number_bands = [band_at(stack, 0), band_at(stack, 1), band_at(stack, 2)];
    let mut recent_opcodes: Vec<i64> = Vec::new();
    let mut i: usize = 0;
    while i < recent.len()
        invariant
            i <= recent@.len(),
            recent_opcodes@ == recent@.subrange(0, i as int),
        decreases recent@.len() - i,
    {
        recent_opcodes.push(recent[i]);
        i = i + 1;
        assert(recent_opcodes@ =~= recent@.subrange(0, i as int));
    }
    assert(recent@.subrange(0, i as int) =~= recent@);
    let r = ContextSnapshot { depth_bucket: depth as u8, top_types, top_number_bands, recent_opcodes };
    r
}

/// The pattern a skill starts with: any depth up to the bucket cap, no
/// required kinds.
pub open spec fn default_pattern() -> SkillPattern {
    SkillPattern {
        min_depth: 0,
        max_depth: MAX_DEPTH_BUCKET as u8,
        required_top_types: [None, None, None],
    }
}

pub open spec fn no_required_types(p: SkillPattern) -> bool {
    forall|i: int| 0 <= i < 3 ==> p.required_top_types@[i] is None
}

pub open spec fn kind_matches(ctx: ContextSnapshot, p: SkillPattern, i: int) -> bool {
    p.required_top_types@[i] is Some && ctx.top_types@[i] == p.required_top_types@[i]
}

pub open spec fn required_count(p: SkillPattern) -> nat {
    (if p.required_top_types@[0] is Some { 1nat } else { 0nat }) + (if p.required_top_types@[1] is Some {
        1nat
    } else {
        0nat
    }) + (if p.required_top_types@[2] is Some { 1nat } else { 0nat })
}

pub open spec fn matched_count(ctx: ContextSnapshot, p: SkillPattern) -> nat {
    (if kind_matches(ctx, p, 0) { 1nat } else { 0nat }) + (if kind_matches(ctx, p, 1) {
        1nat
    } else {
        0nat
    }) + (if kind_matches(ctx, p, 2) { 1nat } else { 0nat })
}

/// How well a context fits a pattern, in thirtieths: twelve for a depth in
/// range, and eighteen times the share of required kinds that match (all
/// eighteen when none are required).
pub open spec fn match_score(ctx: ContextSnapshot, p: SkillPattern) -> nat {
    (if p.min_depth <= ctx.depth_bucket <= p.max_depth {
        DEPTH_SHARE as nat
    } else {
        0nat
    }) + (if required_count(p) == 0 {
        TYPE_SHARE as nat
    } else {
        TYPE_SHARE as nat * matched_count(ctx, p) / required_count(p)
    })
}

fn same_kind(a: Option<ValueKind>, b: Option<ValueKind>) -> (r: bool)
    ensures
        r == (a == b),
{
    match (a, b) {
        (None, None) => true,
        (Some(x), Some(y)) => x == y,
        _ => false,
    }
}

/// How well a context fits a pattern, in thirtieths (see `match_score`).
pub fn pattern_match(ctx: &ContextSnapshot, p: &SkillPattern) -> (r: u8)
    ensures
        r as nat == match_score(*ctx, *p),
        r <= MATCH_SCALE,
{
    let mut score: u8 = 0;
    if p.min_depth <= ctx.depth_bucket && ctx.depth_bucket <= p.max_depth {
        score = DEPTH_SHARE;
    }
    let mut total: u8 = 0;
    let mut matched: u8 = 0;
    let mut i: usize = 0;
    while i < 3
        invariant
            i <= 3,
            matched <= total <= i,
            total as nat == (if i > 0 && p.required_top_types@[0] is Some { 1nat } else { 0nat }) + (
            if i > 1 && p.required_top_types@[1] is Some {
                1nat
            } else {
                0nat
            }) + (if i > 2 && p.required_top_types@[2] is Some { 1nat } else { 0nat }),
            matched as nat == (if i > 0 && kind_matches(*ctx, *p, 0) { 1nat } else { 0nat }) + (
            if i > 1 && kind_matches(*ctx, *p, 1) {
                1nat
            } else {
                0nat
            }) + (if i > 2 && kind_matches(*ctx, *p, 2) { 1nat } else { 0nat }),
        decreases 3 - i,
    {
        if p.required_top_types[i].is_some() {
            total = total + 1;
            if same_kind(ctx.top_types[i], p.required_top_types[i]) {
                matched = matched + 1;
            }
        }
        i = i + 1;
    }
    if total == 0 {
        score = score + TYPE_SHARE;
    } else {
        proof {
            assert(TYPE_SHARE as nat * matched as nat / total as nat <= TYPE_SHARE as nat) by (
            nonlinear_arith)
                requires
                    matched <= total,
                    total > 0,
            ;
        }
        score = score + TYPE_SHARE * matched / total;
    }
    score
}

/// The patterns of the known skills.
#[derive(Clone, Debug)]
pub struct PatternBook {
    pub patterns: HashMap<i64, SkillPattern>,
}

impl PatternBook {
    pub open spec fn view(&self) -> Map<i64, SkillPattern> {
        self.patterns@
    }

    pub fn new() -> (r: PatternBook)
        ensures
            r@ == Map::<i64, SkillPattern>::empty(),
    {
        PatternBook { patterns: HashMap::new() }
    }

    /// Gives `skill_id` the default pattern if it has none.
    pub fn ensure_skill_known(&mut self, skill_id: i64)
        ensures
            final(self)@ == (if old(self)@.contains_key(skill_id) {
                old(self)@
            } else {
                old(self)@.insert(skill_id, default_pattern())
            }),
    {
        if !self.patterns.contains_key(&skill_id) {
            self.patterns.insert(
                skill_id,
                SkillPattern { min_depth: 0, max_depth: MAX_DEPTH_BUCKET as u8, required_top_types: [None, None, None] },
            );
        }
    }

    /// Lets the first context a skill runs in set its pattern: when the
    /// skill requires no kinds yet, it takes the context's kinds and depth.
    pub fn bootstrap_pattern_if_empty(&mut self, skill_id: i64, ctx: &ContextSnapshot)
        ensures
            ({
                let known = if old(self)@.contains_key(skill_id) {
                    old(self)@[skill_id]
                } else {
                    default_pattern()
                };
                final(self)@ == old(self)@.insert(
                    skill_id,
                    if no_required_types(known) {
                        SkillPattern {
                            min_depth: ctx.depth_bucket,
                            max_depth: MAX_DEPTH_BUCKET as u8,
                            required_top_types: ctx.top_types,
                        }
                    } else {
                        known
                    },
                )
            }),
    {
        self.ensure_skill_known(skill_id);
        let known = *self.patterns.get(&skill_id).unwrap();
        if known.required_top_types[0].is_none() && known.required_top_types[1].is_none()
            && known.required_top_types[2].is_none() {
            let fresh = SkillPattern {
                min_depth: ctx.depth_bucket,
                max_depth: MAX_DEPTH_BUCKET as u8,
                required_top_types: ctx.top_types,
            };
            self.patterns.insert(skill_id, fresh);
        } else {
            self.patterns.insert(skill_id, known);
        }
        proof {
            assert(old(self)@.contains_key(skill_id) ==> final(self)@ =~= old(self)@.insert(skill_id, final(self)@[skill_id]));
        }
    }

    /// The smallest depth bucket that `skill_id` expects, zero when unknown.
    pub fn min_depth_of(&self, skill_id: i64) -> (r: u8)
        ensures
            r == (if self@.contains_key(skill_id) {
                self@[skill_id].min_depth
            } else {
                0
            }),
    {
        match self.patterns.get(&skill_id) {
            Some(p) => p.min_depth,
            None => 0,
        }
    }
}

} // verus!
