//! Helpers over a pair of lookup capabilities: decide which of two
//! candidate entities belongs to which capability, and fetch the paired
//! items.
//!
//! The first capability is always resolved first, against `a` before
//! `b`; the second capability is only ever asked about the one entity
//! the first did not claim. The read-only helpers are methods on a pair
//! of capability borrows; the exclusive form is a free function over
//! the two capabilities, since a tuple holding exclusive borrows is
//! beyond what contracts on `&mut` values can speak about.

use vstd::prelude::*;

use crate::query::Entity;
use crate::query::Query;
use crate::query::TwoEntitiesMutQueryExt;
use crate::query::TwoEntitiesQueryExt;
use crate::query::pick_either;
use crate::query::spec_either;
use crate::query::spec_get_either_with_other;

verus! {

/// Whether each of the two capabilities matches at least one of the
/// two candidates. This does not promise a one-to-one pairing.
pub open spec fn spec_both<TA, TB>(
    ma: Map<Entity, TA>,
    mb: Map<Entity, TB>,
    a: Entity,
    b: Entity,
) -> bool {
    spec_either(ma, a, b) && spec_either(mb, a, b)
}

/// The paired items: the first capability claims its item among
/// `a`-before-`b`, and the second is resolved against the entity left
/// over.
pub open spec fn spec_get_both<TA, TB>(
    ma: Map<Entity, TA>,
    mb: Map<Entity, TB>,
    a: Entity,
    b: Entity,
) -> Option<(TA, TB)> {
    match spec_get_either_with_other(ma, a, b) {
        Some(p) => if mb.dom().contains(p.1) {
            Some((p.0, mb[p.1]))
        } else {
            None
        },
        None => None,
    }
}

/// The read-only helpers of a pair of lookup capabilities.
pub trait TupleQueryExt<TA, TB> {
    /// The two capabilities' views: which entities each matches, with
    /// which items.
    spec fn lookup_maps(&self) -> (Map<Entity, TA>, Map<Entity, TB>);

    /// Both capabilities are in a state their lookups may rely on.
    spec fn lookups_wf(&self) -> bool;

    /// True if `a` and `b` both match either `self.0` or `self.1`:
    /// the first capability matches either candidate and the second
    /// matches either candidate.
    fn both(&self, a: Entity, b: Entity) -> (r: bool)
        ensures
            r == spec_both(self.lookup_maps().0, self.lookup_maps().1, a, b),
    ;

    /// The paired items for `a` and `b`, or `None` when no pairing in
    /// the fixed resolution order exists.
    fn get_both(&self, a: Entity, b: Entity) -> (r: Option<(&TA, &TB)>)
        requires
            self.lookups_wf(),
        ensures
            r is Some <==> spec_get_both(self.lookup_maps().0, self.lookup_maps().1, a, b)
                is Some,
            r matches Some(p) ==> *p.0 == spec_get_both(
                self.lookup_maps().0,
                self.lookup_maps().1,
                a,
                b,
            ).unwrap().0 && *p.1 == spec_get_both(
                self.lookup_maps().0,
                self.lookup_maps().1,
                a,
                b,
            ).unwrap().1,
    ;
}

impl<'q, TA, TB> TupleQueryExt<TA, TB> for (&'q Query<TA>, &'q Query<TB>) {
    open spec fn lookup_maps(&self) -> (Map<Entity, TA>, Map<Entity, TB>) {
        (self.0@, self.1@)
    }

    open spec fn lookups_wf(&self) -> bool {
        self.0.wf() && self.1.wf()
    }

    fn both(&self, a: Entity, b: Entity) -> (r: bool) {
        self.0.either(a, b) && self.1.either(a, b)
    }

    fn get_both(&self, a: Entity, b: Entity) -> (r: Option<(&TA, &TB)>) {
        match self.0.get_either_with_other(a, b) {
            Some(found) => {
                let (item_a, other) = found;
                match self.1.get(other) {
                    Ok(item_b) => Some((item_a, item_b)),
                    Err(_) => None,
                }
            },
            None => None,
        }
    }
}

/// Exclusive form of `get_both`: both items come back as live
/// exclusive views. The first capability is resolved with the
/// probe-first discipline, and the second is only asked about the
/// entity left over, so no entity is ever looked up exclusively twice
/// in one call.
pub fn get_both_mut<'q, TA, TB>(
    qa: &'q mut Query<TA>,
    qb: &'q mut Query<TB>,
    a: Entity,
    b: Entity,
) -> (r: Option<(&'q mut TA, &'q mut TB)>)
    requires
        old(qa).wf(),
        old(qb).wf(),
    ensures
        final(qa).wf(),
        final(qb).wf(),
        r is Some <==> spec_get_both(old(qa)@, old(qb)@, a, b) is Some,
        old(qa)@.dom().contains(a) && old(qb)@.dom().contains(b) ==> *(r.unwrap().0) == old(
            qa,
        )@[a] && *(r.unwrap().1) == old(qb)@[b] && final(qa)@ == old(qa)@.insert(
            a,
            *final(r.unwrap().0),
        ) && final(qb)@ == old(qb)@.insert(b, *final(r.unwrap().1)),
        !old(qa)@.dom().contains(a) && old(qa)@.dom().contains(b) && old(qb)@.dom().contains(a)
            ==> *(r.unwrap().0) == old(qa)@[b] && *(r.unwrap().1) == old(qb)@[a] && final(qa)@
            == old(qa)@.insert(b, *final(r.unwrap().0)) && final(qb)@ == old(qb)@.insert(
            a,
            *final(r.unwrap().1),
        ),
        r is None ==> final(qa)@ == old(qa)@ && final(qb)@ == old(qb)@,
{
    let picked = pick_either(qa.contains(a), qa.contains(b), a, b);
    let other = match picked {
        Some(p) => p.1,
        None => {
            return None;
        },
    };
    if !qb.contains(other) {
        return None;
    }
    match qa.get_either_mut_with_other(a, b) {
        Some(found) => {
            let (item_a, claimed_other) = found;
            match qb.get_mut(claimed_other) {
                Ok(item_b) => Some((item_a, item_b)),
                Err(_) => None,
            }
        },
        None => None,
    }
}

/// When the first capability matches `a` alone and the second matches
/// `b`, pairing succeeds with exactly their two items.
pub proof fn lemma_get_both_paired<TA, TB>(
    ma: Map<Entity, TA>,
    mb: Map<Entity, TB>,
    a: Entity,
    b: Entity,
)
    requires
        ma.dom().contains(a),
        !ma.dom().contains(b),
        mb.dom().contains(b),
        !mb.dom().contains(a),
    ensures
        spec_get_both(ma, mb, a, b) == Some((ma[a], mb[b])),
{
}

/// When both capabilities match `a` alone, nothing is left over for
/// the second capability and the pairing fails.
pub proof fn lemma_get_both_misaligned<TA, TB>(
    ma: Map<Entity, TA>,
    mb: Map<Entity, TB>,
    a: Entity,
    b: Entity,
)
    requires
        ma.dom().contains(a),
        !ma.dom().contains(b),
        mb.dom().contains(a),
        !mb.dom().contains(b),
    ensures
        spec_get_both(ma, mb, a, b) is None,
{
}

} // verus!
