//! The structure of the spike-timing rule: for an event arriving after
//! recent ones, which edges of the transition graph change, by which rule,
//! and which sources are then normalised. The magnitudes, which decay with
//! the time between the events, are the caller's to compute.
use crate::event::Event;
use vstd::prelude::*;

verus! {

/// How an edge changes.
#[derive(Clone, Copy, Debug, PartialEq, Eq, Structural)]
pub enum UpdateRule {
    /// Strengthened towards a reward of the given intensity.
    Reward(u8),
    /// Weakened towards an error.
    Penalty,
    /// Strengthened from an earlier event to a later one.
    Potentiate,
    /// Weakened from a later event back to an earlier one.
    Depress,
}

/// One edge update: `past_index` is the position, among the recent events,
/// of the earlier event of the pair.
#[derive(Clone, Copy, Debug, PartialEq, Eq, Structural)]
pub struct EdgeUpdate {
    pub from: Event,
    pub to: Event,
    pub rule: UpdateRule,
    pub past_index: usize,
}

/// The updates that the pair (`past`, then `current`) causes. A reward
/// strengthens the edge into it (a zero reward does nothing), an error
/// weakens it, and any other event strengthens the forward edge and weakens
/// the backward one.
pub open spec fn pair_updates(current: Event, past: Event, idx: usize) -> Seq<EdgeUpdate> {
    match current {
        Event::Reward(intensity) => if intensity > 0 {
            seq![EdgeUpdate { from: past, to: current, rule: UpdateRule::Reward(intensity), past_index: idx }]
        } else {
            Seq::empty()
        },
        Event::Error(_) => seq![
            EdgeUpdate { from: past, to: current, rule: UpdateRule::Penalty, past_index: idx },
        ],
        _ => seq![
            EdgeUpdate { from: past, to: current, rule: UpdateRule::Potentiate, past_index: idx },
            EdgeUpdate { from: current, to: past, rule: UpdateRule::Depress, past_index: idx },
        ],
    }
}

/// The updates for `current` against every recent event, oldest first.
pub open spec fn all_updates(current: Event, recent: Seq<Event>) -> Seq<EdgeUpdate>
    decreases recent.len(),
{
    if recent.len() == 0 {
        Seq::empty()
    } else {
        all_updates(current, recent.drop_last()) + pair_updates(
            current,
            recent.last(),
            (recent.len() - 1) as usize,
        )
    }
}

/// Whether `current` changes any edge at all.
pub open spec fn updates_anything(current: Event) -> bool {
    !(current matches Event::Reward(intensity) && intensity == 0)
}

fn updates_of_pair(current: Event, past: Event, idx: usize) -> (r: Vec<EdgeUpdate>)
    ensures
        r@ == pair_updates(current, past, idx),
{
    let mut r: Vec<EdgeUpdate> = Vec::new();
    match current {
        Event::Reward(intensity) => {
            if intensity > 0 {
                r.push(EdgeUpdate { from: past, to: current, rule: UpdateRule::Reward(intensity), past_index: idx });
            }
        },
        Event::Error(_) => {
            r.push(EdgeUpdate { from: past, to: current, rule: UpdateRule::Penalty, past_index: idx });
        },
        _ => {
            r.push(EdgeUpdate { from: past, to: current, rule: UpdateRule::Potentiate, past_index: idx });
            r.push(EdgeUpdate { from: current, to: past, rule: UpdateRule::Depress, past_index: idx });
        },
    }
    assert(r@ =~= pair_updates(current, past, idx));
    r
}

/// The edge updates that `current` causes against the recent events.
pub fn stdp_updates(current: Event, recent: &Vec<Event>) -> (r: Vec<EdgeUpdate>)
    ensures
        r@ == all_updates(current, recent@),
{
    let mut r: Vec<EdgeUpdate> = Vec::new();
    let mut i: usize = 0;
    while i < recent.len()
        invariant
            i <= recent@.len(),
            r@ == all_updates(current, recent@.subrange(0, i as int)),
        decreases recent@.len() - i,
    {
        let pair = updates_of_pair(current, recent[i], i);
        let ghost before = r@;
        let mut k: usize = 0;
        while k < pair.len()
            invariant
                k <= pair@.len(),
                r@ == before + pair@.subrange(0, k as int),
            decreases pair@.len() - k,
        {
            r.push(pair[k]);
            k = k + 1;
            assert(r@ =~= before + pair@.subrange(0, k as int));
        }
        assert(pair@.subrange(0, k as int) =~= pair@);
        assert(recent@.subrange(0, i + 1).drop_last() =~= recent@.subrange(0, i as int));
        i = i + 1;
    }
    assert(recent@.subrange(0, i as int) =~= recent@);
    r
}

/// The sources whose outgoing weights are normalised after `current`: each
/// recent event once, when `current` changes any edge; none otherwise.
pub fn normalization_sources(current: Event, recent: &Vec<Event>) -> (r: Vec<Event>)
    ensures
        r@.no_duplicates(),
        updates_anything(current) ==> r@.to_set() == recent@.to_set(),
        !updates_anything(current) ==> r@.len() == 0,
{
    let mut r: Vec<Event> = Vec::new();
    let anything = match current {
        Event::Reward(intensity) => intensity > 0,
        _ => true,
    };
    if !anything {
        return r;
    }
    let mut i: usize = 0;
    while i < recent.len()
        invariant
            i <= recent@.len(),
            r@.no_duplicates(),
            forall|x: Event| r@.contains(x) <==> exists|j: int| 0 <= j < i && recent@[j] == x,
        decreases recent@.len() - i,
    {
        let e = recent[i];
        let mut seen = false;
        let mut k: usize = 0;
        while k < r.len()
            invariant
                k <= r@.len(),
                seen == exists|j: int| 0 <= j < k && r@[j] == e,
            decreases r@.len() - k,
        {
            if r[k] == e {
                seen = true;
            }
            k = k + 1;
        }
        let ghost before = r@;
        if !seen {
            r.push(e);
            proof {
                assert forall|a: int, b: int| 0 <= a < b < r@.len() implies r@[a] != r@[b] by {
                    if b == r@.len() - 1 {
                        assert(r@[a] == before[a]);
                        assert(before.contains(r@[a]));
                    }
                }
            }
        }
        proof {
            assert forall|x: Event| r@.contains(x) <==> exists|j: int|
                0 <= j < i + 1 && recent@[j] == x by {
                if r@.contains(x) {
                    let w = choose|w: int| 0 <= w < r@.len() && r@[w] == x;
                    if w < before.len() {
                        assert(before[w] == x);
                        assert(before.contains(x));
                    } else {
                        assert(recent@[i as int] == x);
                    }
                }
                if exists|j: int| 0 <= j < i + 1 && recent@[j] == x {
                    let j = choose|j: int| 0 <= j < i + 1 && recent@[j] == x;
                    if j < i {
                        assert(before.contains(x));
                        let w = choose|w: int| 0 <= w < before.len() && before[w] == x;
                        assert(r@[w] == x);
                    } else if seen {
                        let w = choose|w: int| 0 <= w < before.len() && before[w] == e;
                        assert(r@[w] == x);
                    } else {
                        assert(r@[r@.len() - 1] == x);
                    }
                }
            }
        }
        i = i + 1;
    }
    proof {
        assert forall|x: Event| r@.to_set().contains(x) <==> recent@.to_set().contains(x) by {
            if recent@.contains(x) {
                let j = choose|j: int| 0 <= j < recent@.len() && recent@[j] == x;
                assert(exists|j2: int| 0 <= j2 < i && recent@[j2] == x);
            }
            if r@.contains(x) {
                let j = choose|j: int| 0 <= j < i && recent@[j] == x;
                assert(recent@.contains(x));
            }
        }
        assert(r@.to_set() =~= recent@.to_set());
    }
    r
}

} // verus!
