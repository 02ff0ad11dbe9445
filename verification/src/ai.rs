use vstd::prelude::*;

use crate::entity::Entity;
use crate::player::Faction;

verus! {

/// A possible target for a computer-controlled entity: who it is, whose side
/// it is on, and the path to it, if one was found.
pub struct TargetCandidate<P> {
    pub entity: Entity,
    pub faction: Faction,
    pub path: Option<P>,
}

/// `c` is an enemy of `own` that can be reached.
pub open spec fn eligible<P>(own: Faction, c: TargetCandidate<P>) -> bool {
    c.faction != own && c.path is Some
}

/// A candidate is eligible exactly when it belongs to another faction and a
/// path to it was found.
pub proof fn lemma_eligible_means<P>(own: Faction, cs: Seq<TargetCandidate<P>>)
    ensures
        forall|i: int| #[trigger] eligible(own, cs[i]) <==> (cs[i].faction != own && cs[i].path is Some),
{
}

/// Picks the target of a computer-controlled entity of faction `own`.
/// `candidates` come nearest first; the first enemy with a path is chosen,
/// with that path. `None` when no enemy can be reached.
pub fn select_target<P>(own: Faction, candidates: Vec<TargetCandidate<P>>) -> (t: Option<(Entity, P)>)
    ensures
        match t {
            Some((e, p)) => exists|i: int|
                0 <= i < candidates@.len() && #[trigger] eligible(own, candidates@[i]) && (forall|j: int|
                    0 <= j < i ==> !eligible(own, #[trigger] candidates@[j]))
                    && candidates@[i].entity == e && candidates@[i].path == Some(p),
            None => forall|i: int| 0 <= i < candidates@.len() ==> !#[trigger] eligible(own, candidates@[i]),
        },
        match t {
            Some((e, p)) => exists|i: int|
                0 <= i < candidates@.len() && #[trigger] candidates@[i].faction != own
                    && candidates@[i].entity == e && candidates@[i].path == Some(p) && (forall|j: int|
                    0 <= j < i ==> #[trigger] candidates@[j].faction == own || candidates@[j].path is None),
            None => forall|i: int|
                0 <= i < candidates@.len() ==> #[trigger] candidates@[i].faction == own
                    || candidates@[i].path is None,
        },
{
    proof {
        lemma_eligible_means(own, candidates@);
    }
    let ghost all = candidates@;
    let mut pool = candidates;
    let n = pool.len();
    let mut i: usize = 0;
    while i < n
        invariant
            pool@ == all,
            candidates@ == all,
            n == all.len(),
            i <= n,
            forall|j: int| 0 <= j < i ==> !eligible(own, #[trigger] all[j]),
        decreases n - i,
    {
        let hostile = !(pool[i].faction == own);
        if hostile && pool[i].path.is_some() {
            let chosen = pool.remove(i);
            assert(chosen == all[i as int]);
            match chosen.path {
                Some(p) => {
                    assert(eligible(own, all[i as int]));
                    return Some((chosen.entity, p));
                },
                None => {},
            }
        }
        i = i + 1;
    }
    None
}

} // verus!
