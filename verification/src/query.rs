//! A lookup capability over entities, and the "either of two entities"
//! helpers on it.
//!
//! `Query<T>` associates entities with items of type `T` and offers the
//! two primitives every helper here is built from: a read-only lookup
//! (`get`) and an exclusive lookup (`get_mut`). Its mathematical view is
//! the finite map from entities to items, and every helper's contract is
//! stated over that map.

use vstd::prelude::*;

verus! {

/// An opaque entity identifier: no structure beyond identity.
#[derive(Clone, Copy, PartialEq, Eq, Structural, Hash, Debug)]
pub struct Entity(pub u64);

/// The one failure a lookup can report: the entity does not match.
#[derive(Clone, Copy, PartialEq, Eq, Structural, Hash, Debug)]
pub struct NoSuchEntity;

/// A lookup capability: a population of entities, each carrying an item
/// of type `T`.
pub struct Query<T> {
    entries: Vec<(Entity, T)>,
}

/// Each entity appears at most once among the entries.
spec fn seq_wf<T>(s: Seq<(Entity, T)>) -> bool {
    forall|i: int, j: int|
        0 <= i < j < s.len() ==> (#[trigger] s[i]).0 != (#[trigger] s[j]).0
}

spec fn seq_has<T>(s: Seq<(Entity, T)>, e: Entity) -> bool {
    exists|i: int| 0 <= i < s.len() && (#[trigger] s[i]).0 == e
}

spec fn seq_index_of<T>(s: Seq<(Entity, T)>, e: Entity) -> int {
    choose|i: int| 0 <= i < s.len() && (#[trigger] s[i]).0 == e
}

/// The map that a sequence of entries stands for.
spec fn seq_to_map<T>(s: Seq<(Entity, T)>) -> Map<Entity, T> {
    Map::new(|e: Entity| seq_has(s, e), |e: Entity| s[seq_index_of(s, e)].1)
}

/// With distinct keys, an entry's position is the one position its key
/// is found at, and it decides the key's image under the map.
proof fn lemma_seq_index_unique<T>(s: Seq<(Entity, T)>, e: Entity, i: int)
    requires
        seq_wf(s),
        0 <= i < s.len(),
        s[i].0 == e,
    ensures
        seq_has(s, e),
        seq_index_of(s, e) == i,
        seq_to_map(s).dom().contains(e),
        seq_to_map(s)[e] == s[i].1,
{
    assert(seq_has(s, e));
    let j = seq_index_of(s, e);
    if j < i {
        assert(s[j].0 != s[i].0);
    } else if i < j {
        assert(s[i].0 != s[j].0);
    }
}

/// Overwriting the entry at a key's position updates the map at that
/// key and keeps the keys distinct.
proof fn lemma_map_update<T>(s: Seq<(Entity, T)>, i: int, e: Entity, v: T)
    requires
        seq_wf(s),
        0 <= i < s.len(),
        s[i].0 == e,
    ensures
        seq_wf(s.update(i, (e, v))),
        seq_to_map(s.update(i, (e, v))) == seq_to_map(s).insert(e, v),
{
    let s2 = s.update(i, (e, v));
    assert forall|k: int, l: int| 0 <= k < l < s2.len() implies (#[trigger] s2[k]).0 != (
    #[trigger] s2[l]).0 by {
        assert(s[k].0 != s[l].0);
    }
    assert forall|x: Entity| #[trigger] seq_has(s2, x) == seq_has(s, x) by {
        if seq_has(s, x) {
            let k = seq_index_of(s, x);
            assert(s2[k].0 == x);
        }
        if seq_has(s2, x) {
            let k = seq_index_of(s2, x);
            assert(s[k].0 == x);
        }
    }
    lemma_seq_index_unique(s, e, i);
    lemma_seq_index_unique(s2, e, i);
    assert forall|x: Entity| seq_has(s2, x) implies #[trigger] seq_to_map(s2)[x] == seq_to_map(
        s,
    ).insert(e, v)[x] by {
        let k = seq_index_of(s2, x);
        assert(s2[k].0 == x);
        if k == i {
            assert(x == e);
        } else {
            assert(s[k].0 == x);
            lemma_seq_index_unique(s, x, k);
            lemma_seq_index_unique(s2, x, k);
            assert(x != e);
        }
    }
    assert(seq_to_map(s2) =~= seq_to_map(s).insert(e, v));
}

/// Appending an entry under a fresh key updates the map at that key and
/// keeps the keys distinct.
proof fn lemma_map_push<T>(s: Seq<(Entity, T)>, e: Entity, v: T)
    requires
        seq_wf(s),
        !seq_has(s, e),
    ensures
        seq_wf(s.push((e, v))),
        seq_to_map(s.push((e, v))) == seq_to_map(s).insert(e, v),
{
    let s2 = s.push((e, v));
    let n = s.len() as int;
    assert(s2[n] == (e, v));
    assert forall|k: int, l: int| 0 <= k < l < s2.len() implies (#[trigger] s2[k]).0 != (
    #[trigger] s2[l]).0 by {
        if l == n {
            assert(s[k].0 != e);
        } else {
            assert(s[k].0 != s[l].0);
        }
    }
    lemma_seq_index_unique(s2, e, n);
    assert forall|x: Entity| #[trigger] seq_has(s2, x) == (seq_has(s, x) || x == e) by {
        if seq_has(s, x) {
            let k = seq_index_of(s, x);
            assert(s2[k].0 == x);
        }
        if seq_has(s2, x) && x != e {
            let k = seq_index_of(s2, x);
            assert(k != n);
            assert(s[k].0 == x);
        }
    }
    assert forall|x: Entity| seq_has(s2, x) implies #[trigger] seq_to_map(s2)[x] == seq_to_map(
        s,
    ).insert(e, v)[x] by {
        let k = seq_index_of(s2, x);
        assert(s2[k].0 == x);
        if k == n {
            assert(x == e);
        } else {
            assert(s[k].0 == x);
            assert(x != e);
            lemma_seq_index_unique(s, x, k);
            lemma_seq_index_unique(s2, x, k);
        }
    }
    assert(seq_to_map(s2) =~= seq_to_map(s).insert(e, v));
}

impl<T> Query<T> {
    /// The capability is well formed: each entity appears at most once.
    pub closed spec fn wf(&self) -> bool {
        seq_wf(self.entries@)
    }

    /// An empty capability: no entity matches.
    pub fn new() -> (q: Query<T>)
        ensures
            q.wf(),
            q@ == Map::<Entity, T>::empty(),
    {
        let q = Query::<T> { entries: Vec::new() };
        proof {
            assert forall|x: Entity| !seq_has(q.entries@, x) by {}
            assert(q@ =~= Map::<Entity, T>::empty());
        }
        q
    }

    /// Position of the first entry for `e`, if any.
    fn find(&self, e: Entity) -> (r: Option<usize>)
        ensures
            match r {
                Some(i) => i < self.entries@.len() && self.entries@[i as int].0 == e,
                None => !seq_has(self.entries@, e),
            },
    {
        let n = self.entries.len();
        let mut i: usize = 0;
        while i < n
            invariant
                i <= n,
                n == self.entries@.len(),
                forall|j: int| 0 <= j < i ==> (#[trigger] self.entries@[j]).0 != e,
            decreases n - i,
        {
            let pair = &self.entries[i];
            if pair.0 == e {
                return Some(i);
            }
            i = i + 1;
        }
        None
    }

    /// Associate `e` with `v`, replacing any earlier item for `e`.
    pub fn insert(&mut self, e: Entity, v: T)
        requires
            old(self).wf(),
        ensures
            final(self).wf(),
            final(self)@ == old(self)@.insert(e, v),
    {
        let ghost s0 = self.entries@;
        match self.find(e) {
            Some(i) => {
                let slot = &mut self.entries[i];
                *slot = (e, v);
                proof {
                    lemma_map_update(s0, i as int, e, v);
                }
            },
            None => {
                self.entries.push((e, v));
                proof {
                    lemma_map_push(s0, e, v);
                }
            },
        }
    }

    /// True exactly when `e` matches this capability.
    pub fn contains(&self, e: Entity) -> (r: bool)
        ensures
            r == self@.dom().contains(e),
    {
        match self.find(e) {
            Some(_) => {
                proof {
                    assert(seq_has(self.entries@, e));
                }
                true
            },
            None => false,
        }
    }

    /// Read-only lookup: the item for `e`, or `NoSuchEntity`.
    pub fn get(&self, e: Entity) -> (r: Result<&T, NoSuchEntity>)
        requires
            self.wf(),
        ensures
            r is Ok <==> self@.dom().contains(e),
            r matches Ok(v) ==> *v == self@[e],
    {
        match self.find(e) {
            Some(i) => {
                proof {
                    lemma_seq_index_unique(self.entries@, e, i as int);
                }
                let pair = &self.entries[i];
                Ok(&pair.1)
            },
            None => Err(NoSuchEntity),
        }
    }

    /// Exclusive lookup: a live view of the item for `e`, or
    /// `NoSuchEntity`. Writes through the view land in the capability.
    pub fn get_mut(&mut self, e: Entity) -> (r: Result<&mut T, NoSuchEntity>)
        requires
            old(self).wf(),
        ensures
            final(self).wf(),
            r is Ok <==> old(self)@.dom().contains(e),
            r is Ok ==> *(r->Ok_0) == old(self)@[e] && final(self)@ == old(self)@.insert(
                e,
                *final(r->Ok_0),
            ),
            r is Err ==> final(self)@ == old(self)@,
    {
        match self.find(e) {
            Some(i) => {
                proof {
                    lemma_seq_index_unique(self.entries@, e, i as int);
                    assert forall|v: T|
                        seq_wf(#[trigger] self.entries@.update(i as int, (e, v))) && seq_to_map(
                            self.entries@.update(i as int, (e, v)),
                        ) == self@.insert(e, v) by {
                        lemma_map_update(self.entries@, i as int, e, v);
                    }
                }
                let entry = &mut self.entries[i];
                let item = &mut entry.1;
                Ok(item)
            },
            None => Err(NoSuchEntity),
        }
    }
}

impl<T> View for Query<T> {
    type V = Map<Entity, T>;

    closed spec fn view(&self) -> Map<Entity, T> {
        seq_to_map(self.entries@)
    }
}

/// Whether a capability with view `m` matches `a` or `b`.
pub open spec fn spec_either<T>(m: Map<Entity, T>, a: Entity, b: Entity) -> bool {
    m.dom().contains(a) || m.dom().contains(b)
}

/// The candidate reported as "the other" when a capability with view
/// `m` is probed with `a` before `b`.
pub open spec fn spec_either_with_other<T>(m: Map<Entity, T>, a: Entity, b: Entity) -> Option<
    Entity,
> {
    if m.dom().contains(a) {
        Some(b)
    } else if m.dom().contains(b) {
        Some(a)
    } else {
        None
    }
}

/// The item found when a capability with view `m` is probed with `a`
/// before `b`.
pub open spec fn spec_get_either<T>(m: Map<Entity, T>, a: Entity, b: Entity) -> Option<T> {
    if m.dom().contains(a) {
        Some(m[a])
    } else if m.dom().contains(b) {
        Some(m[b])
    } else {
        None
    }
}

/// The item found, paired with the other candidate, when a capability
/// with view `m` is probed with `a` before `b`.
pub open spec fn spec_get_either_with_other<T>(m: Map<Entity, T>, a: Entity, b: Entity) -> Option<
    (T, Entity),
> {
    if m.dom().contains(a) {
        Some((m[a], b))
    } else if m.dom().contains(b) {
        Some((m[b], a))
    } else {
        None
    }
}

/// The pairing decision itself: keep `a` if the first probe matched,
/// else `b` if the second did, each paired with the other candidate.
pub fn pick_either<E>(a_matches: bool, b_matches: bool, a: E, b: E) -> (r: Option<(E, E)>)
    ensures
        r == (if a_matches {
            Some((a, b))
        } else if b_matches {
            Some((b, a))
        } else {
            None::<(E, E)>
        }),
{
    if a_matches {
        Some((a, b))
    } else if b_matches {
        Some((b, a))
    } else {
        None
    }
}

/// The "either of two entities" helpers of a read-capable lookup
/// capability. Every operation probes `a` before `b`; when both
/// candidates match, the first argument wins and only the second is
/// reported as "the other" — the left-to-right precedence is part of
/// the contract, not a symmetric "both match" signal.
pub trait TwoEntitiesQueryExt<T> {
    /// Which entities this capability matches, and with which items.
    spec fn lookup_map(&self) -> Map<Entity, T>;

    /// The capability is in a state its lookups may rely on.
    spec fn lookup_wf(&self) -> bool;

    /// True if either entity matches the capability.
    fn either(&self, a: Entity, b: Entity) -> (r: bool)
        ensures
            r == spec_either(self.lookup_map(), a, b),
    ;

    /// The other entity, if either entity matches the capability.
    fn either_with_other(&self, a: Entity, b: Entity) -> (r: Option<Entity>)
        ensures
            r == spec_either_with_other(self.lookup_map(), a, b),
    ;

    /// The first item that matches, or `None` if neither entity does.
    fn get_either(&self, a: Entity, b: Entity) -> (r: Option<&T>)
        requires
            self.lookup_wf(),
        ensures
            r is Some <==> spec_get_either(self.lookup_map(), a, b) is Some,
            r matches Some(v) ==> *v == spec_get_either(self.lookup_map(), a, b).unwrap(),
    ;

    /// The first item that matches and the other entity, or `None` if
    /// neither entity matches.
    fn get_either_with_other(&self, a: Entity, b: Entity) -> (r: Option<(&T, Entity)>)
        requires
            self.lookup_wf(),
        ensures
            r is Some <==> spec_get_either_with_other(self.lookup_map(), a, b) is Some,
            r matches Some(p) ==> *p.0 == spec_get_either_with_other(
                self.lookup_map(),
                a,
                b,
            ).unwrap().0 && p.1 == spec_get_either_with_other(self.lookup_map(), a, b).unwrap().1,
    ;
}

impl<T> TwoEntitiesQueryExt<T> for Query<T> {
    open spec fn lookup_map(&self) -> Map<Entity, T> {
        self@
    }

    open spec fn lookup_wf(&self) -> bool {
        self.wf()
    }

    fn either(&self, a: Entity, b: Entity) -> (r: bool) {
        self.contains(a) || self.contains(b)
    }

    fn either_with_other(&self, a: Entity, b: Entity) -> (r: Option<Entity>) {
        match pick_either(self.contains(a), self.contains(b), a, b) {
            Some(p) => Some(p.1),
            None => None,
        }
    }

    fn get_either(&self, a: Entity, b: Entity) -> (r: Option<&T>) {
        match self.get(a) {
            Ok(v) => Some(v),
            Err(_) => match self.get(b) {
                Ok(v) => Some(v),
                Err(_) => None,
            },
        }
    }

    fn get_either_with_other(&self, a: Entity, b: Entity) -> (r: Option<(&T, Entity)>) {
        match self.get(a) {
            Ok(v) => Some((v, b)),
            Err(_) => match self.get(b) {
                Ok(v) => Some((v, a)),
                Err(_) => None,
            },
        }
    }
}

/// The exclusive "either of two entities" helpers of a write-capable
/// lookup capability, with the same `a`-before-`b` precedence. The
/// existence checks are read-only probes; only the entity settled on
/// is looked up exclusively, so no two exclusive lookups are ever
/// taken in one call.
pub trait TwoEntitiesMutQueryExt<T> {
    /// Which entities this capability matches, and with which items.
    spec fn lookup_map(&self) -> Map<Entity, T>;

    /// The capability is in a state its lookups may rely on.
    spec fn lookup_wf(&self) -> bool;

    /// The first item that matches, as a live exclusive view, or
    /// `None` if neither entity matches.
    fn get_either_mut(&mut self, a: Entity, b: Entity) -> (r: Option<&mut T>)
        requires
            old(self).lookup_wf(),
        ensures
            final(self).lookup_wf(),
            r is Some <==> spec_either(old(self).lookup_map(), a, b),
            old(self).lookup_map().dom().contains(a) ==> *(r.unwrap()) == old(
                self,
            ).lookup_map()[a] && final(self).lookup_map() == old(self).lookup_map().insert(
                a,
                *final(r.unwrap()),
            ),
            !old(self).lookup_map().dom().contains(a) && old(self).lookup_map().dom().contains(b)
                ==> *(r.unwrap()) == old(self).lookup_map()[b] && final(self).lookup_map() == old(
                self,
            ).lookup_map().insert(b, *final(r.unwrap())),
            r is None ==> final(self).lookup_map() == old(self).lookup_map(),
    ;

    /// The first item that matches, as a live exclusive view, and the
    /// other entity, or `None` if neither entity matches.
    fn get_either_mut_with_other(&mut self, a: Entity, b: Entity) -> (r: Option<(&mut T, Entity)>)
        requires
            old(self).lookup_wf(),
        ensures
            final(self).lookup_wf(),
            r is Some <==> spec_either(old(self).lookup_map(), a, b),
            old(self).lookup_map().dom().contains(a) ==> *(r.unwrap().0) == old(
                self,
            ).lookup_map()[a] && r.unwrap().1 == b && final(self).lookup_map() == old(
                self,
            ).lookup_map().insert(a, *final(r.unwrap().0)),
            !old(self).lookup_map().dom().contains(a) && old(self).lookup_map().dom().contains(b)
                ==> *(r.unwrap().0) == old(self).lookup_map()[b] && r.unwrap().1 == a && final(self).lookup_map() == old(self).lookup_map().insert(b, *final(r.unwrap().0)),
            r is None ==> final(self).lookup_map() == old(self).lookup_map(),
    ;
}

impl<T> TwoEntitiesMutQueryExt<T> for Query<T> {
    open spec fn lookup_map(&self) -> Map<Entity, T> {
        self@
    }

    open spec fn lookup_wf(&self) -> bool {
        self.wf()
    }

    fn get_either_mut(&mut self, a: Entity, b: Entity) -> (r: Option<&mut T>) {
        let target = if self.contains(a) {
            a
        } else if self.contains(b) {
            b
        } else {
            return None;
        };
        match self.get_mut(target) {
            Ok(v) => Some(v),
            Err(_) => None,
        }
    }

    fn get_either_mut_with_other(&mut self, a: Entity, b: Entity) -> (r: Option<(&mut T, Entity)>) {
        let picked = pick_either(self.contains(a), self.contains(b), a, b);
        let (target, other) = match picked {
            Some(p) => p,
            None => {
                return None;
            },
        };
        match self.get_mut(target) {
            Ok(v) => Some((v, other)),
            Err(_) => None,
        }
    }
}

/// A capability that matches `x`, probed with candidates of which the
/// other never matches, reports a match however the two are ordered,
/// and reports none when probed with two non-matching candidates.
pub proof fn lemma_matches_either_single<T>(m: Map<Entity, T>, x: Entity, y: Entity, z: Entity)
    requires
        m.dom().contains(x),
        !m.dom().contains(y),
        !m.dom().contains(z),
    ensures
        spec_either(m, x, y),
        spec_either(m, y, x),
        !spec_either(m, y, z),
{
}

/// With `x` alone matching among the candidates, the entity reported
/// as "the other" is `y` whichever argument order is used.
pub proof fn lemma_either_with_other_single<T>(m: Map<Entity, T>, x: Entity, y: Entity)
    requires
        m.dom().contains(x),
        !m.dom().contains(y),
    ensures
        spec_either_with_other(m, x, y) == Some(y),
        spec_either_with_other(m, y, x) == Some(y),
{
}

/// `get_either` and `get_either_with_other` succeed on exactly the
/// same inputs.
pub proof fn lemma_get_either_agree<T>(m: Map<Entity, T>, a: Entity, b: Entity)
    ensures
        spec_get_either(m, a, b) is Some <==> spec_get_either_with_other(m, a, b) is Some,
{
}

} // verus!
