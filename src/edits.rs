use vstd::prelude::*;
use crate::voxel::{IVec3, WorldVoxel};
use std::collections::HashMap;
use vstd::arithmetic::div_mod::lemma_fundamental_div_mod_converse;

verus! {

/// The value of the first pair in `s`, at index `i` or later, whose position
/// is `p`.
pub open spec fn lookup_from(s: Seq<(IVec3, WorldVoxel)>, p: IVec3, i: int) -> Option<WorldVoxel>
    decreases s.len() - i,
{
    if i < 0 || i >= s.len() {
        None
    } else if s[i].0 == p {
        Some(s[i].1)
    } else {
        lookup_from(s, p, i + 1)
    }
}

/// The value of the first pair in `s` whose position is `p`.
pub open spec fn lookup(s: Seq<(IVec3, WorldVoxel)>, p: IVec3) -> Option<WorldVoxel> {
    lookup_from(s, p, 0)
}

proof fn lemma_lookup_at(s: Seq<(IVec3, WorldVoxel)>, p: IVec3, i: int, j: int)
    requires
        0 <= i <= j < s.len(),
        s[j].0 == p,
        forall|k: int| i <= k < j ==> s[k].0 != p,
    ensures
        lookup_from(s, p, i) == Some(s[j].1),
    decreases j - i,
{
    if i < j {
        lemma_lookup_at(s, p, i + 1, j);
    }
}

proof fn lemma_lookup_none(s: Seq<(IVec3, WorldVoxel)>, p: IVec3, i: int)
    requires
        0 <= i,
        forall|k: int| i <= k < s.len() ==> s[k].0 != p,
    ensures
        lookup_from(s, p, i) is None,
    decreases s.len() - i,
{
    if i < s.len() {
        lemma_lookup_none(s, p, i + 1);
    }
}

proof fn lemma_lookup_result(s: Seq<(IVec3, WorldVoxel)>, p: IVec3, i: int)
    requires
        0 <= i,
    ensures
        lookup_from(s, p, i) is None ==> forall|k: int| i <= k < s.len() ==> s[k].0 != p,
        lookup_from(s, p, i) is Some ==> exists|j: int|
            i <= j < s.len() && s[j].0 == p && lookup_from(s, p, i) == Some(s[j].1) && forall|
                k: int,
            | i <= k < j ==> s[k].0 != p,
    decreases s.len() - i,
{
    if i < s.len() && s[i].0 != p {
        lemma_lookup_result(s, p, i + 1);
        if lookup_from(s, p, i + 1) is Some {
            let j = choose|j: int|
                i + 1 <= j < s.len() && s[j].0 == p && lookup_from(s, p, i + 1) == Some(s[j].1)
                    && forall|k: int| i + 1 <= k < j ==> s[k].0 != p;
            assert(forall|k: int| i <= k < j ==> s[k].0 != p);
        }
    }
}

/// Appending a pair changes a lookup only for a position with no earlier pair.
pub proof fn lemma_lookup_push(s: Seq<(IVec3, WorldVoxel)>, e: (IVec3, WorldVoxel), p: IVec3)
    ensures
        lookup(s.push(e), p) == if lookup(s, p) is Some {
            lookup(s, p)
        } else if e.0 == p {
            Some(e.1)
        } else {
            None
        },
{
    let t = s.push(e);
    lemma_lookup_result(s, p, 0);
    if lookup(s, p) is Some {
        let j = choose|j: int|
            0 <= j < s.len() && s[j].0 == p && lookup(s, p) == Some(s[j].1) && forall|k: int|
                0 <= k < j ==> s[k].0 != p;
        assert(t[j] == s[j]);
        lemma_lookup_at(t, p, 0, j);
    } else if e.0 == p {
        lemma_lookup_at(t, p, 0, s.len() as int);
    } else {
        lemma_lookup_none(t, p, 0);
    }
}

/// Edits issued but not yet committed, in issue order. A position may occur
/// more than once; a lookup returns the oldest pending value, read from an
/// index of first occurrences.
pub struct VoxelWriteBuffer {
    entries: Vec<(IVec3, WorldVoxel)>,
    first: HashMap<u128, WorldVoxel>,
}

impl VoxelWriteBuffer {
    /// The pending edits, oldest first.
    pub closed spec fn pending(&self) -> Seq<(IVec3, WorldVoxel)> {
        self.entries@
    }

    pub closed spec fn wf(&self) -> bool {
        forall|p: IVec3| #[trigger]
            lookup(self.entries@, p) == if self.first@.contains_key(pos_key(p) as u128) {
                Some(self.first@[pos_key(p) as u128])
            } else {
                None
            }
    }

    pub fn new() -> (r: VoxelWriteBuffer)
        ensures
            r.wf(),
            r.pending() == Seq::<(IVec3, WorldVoxel)>::empty(),
    {
        let r = VoxelWriteBuffer { entries: Vec::new(), first: HashMap::new() };
        assert(r.first@ == Map::<u128, WorldVoxel>::empty());
        r
    }

    /// Appends an edit after all pending ones.
    pub fn push(&mut self, p: IVec3, v: WorldVoxel)
        requires
            old(self).wf(),
        ensures
            final(self).wf(),
            final(self).pending() == old(self).pending().push((p, v)),
    {
        broadcast use vstd::std_specs::hash::group_hash_axioms;

        let ghost s = self.entries@;
        let k = pos_key_of(p);
        if !self.first.contains_key(&k) {
            self.first.insert(k, v);
        }
        self.entries.push((p, v));
        proof {
            assert forall|q: IVec3| #[trigger]
                lookup(self.entries@, q) == if self.first@.contains_key(pos_key(q) as u128) {
                    Some(self.first@[pos_key(q) as u128])
                } else {
                    None
                } by {
                lemma_lookup_push(s, (p, v), q);
                assert(lookup(s, q) == if old(self).first@.contains_key(pos_key(q) as u128) {
                    Some(old(self).first@[pos_key(q) as u128])
                } else {
                    None
                });
                if q != p && pos_key(q) as u128 == k {
                    lemma_pos_key_in_range(p);
                    lemma_pos_key_in_range(q);
                    lemma_pos_key_injective(p, q);
                }
            }
        }
    }

    pub fn len(&self) -> (r: usize)
        ensures
            r == self.pending().len(),
    {
        self.entries.len()
    }

    /// The value of the oldest pending edit at `p`.
    pub fn get(&self, p: IVec3) -> (r: Option<WorldVoxel>)
        requires
            self.wf(),
        ensures
            r == lookup(self.pending(), p),
    {
        broadcast use vstd::std_specs::hash::group_hash_axioms;

        assert(lookup(self.entries@, p) == if self.first@.contains_key(pos_key(p) as u128) {
            Some(self.first@[pos_key(p) as u128])
        } else {
            None
        });
        match self.first.get(&pos_key_of(p)) {
            Some(v) => Some(*v),
            None => None,
        }
    }
}

/// A position packed into one 96-bit integer: each axis biased by `2^31`
/// into 32 bits, `x` highest.
pub open spec fn pos_key(p: IVec3) -> int {
    ((p.x + 0x8000_0000) * 0x1_0000_0000 + (p.y + 0x8000_0000)) * 0x1_0000_0000 + (p.z
        + 0x8000_0000)
}

/// The packed key of `p`.
pub(crate) fn pos_key_of(p: IVec3) -> (r: u128)
    ensures
        r as int == pos_key(p),
{
    let x = (p.x as i64 + 0x8000_0000) as u128;
    let y = (p.y as i64 + 0x8000_0000) as u128;
    let z = (p.z as i64 + 0x8000_0000) as u128;
    assert((x * 0x1_0000_0000 + y) * 0x1_0000_0000 + z < 0x1_0000_0000_0000_0000_0000_0000)
        by (nonlinear_arith)
        requires
            x < 0x1_0000_0000,
            y < 0x1_0000_0000,
            z < 0x1_0000_0000,
    ;
    (x * 0x1_0000_0000 + y) * 0x1_0000_0000 + z
}

/// Distinct positions have distinct packed keys.
pub proof fn lemma_pos_key_injective(p: IVec3, q: IVec3)
    requires
        pos_key(p) == pos_key(q),
    ensures
        p == q,
{
    let hp = (p.x + 0x8000_0000) * 0x1_0000_0000 + (p.y + 0x8000_0000);
    let hq = (q.x + 0x8000_0000) * 0x1_0000_0000 + (q.y + 0x8000_0000);
    lemma_fundamental_div_mod_converse(pos_key(p), 0x1_0000_0000, hp, p.z + 0x8000_0000);
    lemma_fundamental_div_mod_converse(pos_key(q), 0x1_0000_0000, hq, q.z + 0x8000_0000);
    lemma_fundamental_div_mod_converse(hp, 0x1_0000_0000, p.x + 0x8000_0000, p.y + 0x8000_0000);
    lemma_fundamental_div_mod_converse(hq, 0x1_0000_0000, q.x + 0x8000_0000, q.y + 0x8000_0000);
}

/// Voxel edits that outlive chunk reloads, at most one per position, keyed
/// by packed position.
pub struct ModifiedVoxels {
    entries: HashMap<u128, WorldVoxel>,
}

impl ModifiedVoxels {
    /// The stored edits, by packed position.
    pub closed spec fn stored(&self) -> Map<u128, WorldVoxel> {
        self.entries@
    }

    /// The overlay value at `p`, if one is set.
    pub open spec fn value_at(&self, p: IVec3) -> Option<WorldVoxel> {
        if self.stored().contains_key(pos_key(p) as u128) {
            Some(self.stored()[pos_key(p) as u128])
        } else {
            None
        }
    }

    pub fn new() -> (r: ModifiedVoxels)
        ensures
            forall|p: IVec3| #[trigger] r.value_at(p) is None,
    {
        let r = ModifiedVoxels { entries: HashMap::new() };
        assert(r.stored() == Map::<u128, WorldVoxel>::empty());
        r
    }

    /// The overlay value at `p`, if one is set.
    pub fn get_voxel(&self, p: IVec3) -> (r: Option<WorldVoxel>)
        ensures
            r == self.value_at(p),
    {
        broadcast use vstd::std_specs::hash::group_hash_axioms;

        let k = pos_key_of(p);
        match self.entries.get(&k) {
            Some(v) => Some(*v),
            None => None,
        }
    }

    /// Sets the overlay value at `p`, replacing any earlier one.
    pub fn set_voxel(&mut self, p: IVec3, v: WorldVoxel)
        ensures
            final(self).value_at(p) == Some(v),
            forall|q: IVec3| q != p ==> #[trigger] final(self).value_at(q) == old(self).value_at(q),
    {
        broadcast use vstd::std_specs::hash::group_hash_axioms;

        let k = pos_key_of(p);
        self.entries.insert(k, v);
        assert forall|q: IVec3| q != p implies #[trigger] self.value_at(q) == old(self).value_at(
            q,
        ) by {
            if pos_key(q) as u128 == k {
                lemma_pos_key_in_range(q);
                lemma_pos_key_injective(p, q);
            }
        }
    }
}

pub(crate) proof fn lemma_pos_key_in_range(p: IVec3)
    ensures
        0 <= pos_key(p) < 0x1_0000_0000_0000_0000_0000_0000,
{
    let x = p.x + 0x8000_0000;
    let y = p.y + 0x8000_0000;
    let z = p.z + 0x8000_0000;
    assert(0 <= (x * 0x1_0000_0000 + y) * 0x1_0000_0000 + z < 0x1_0000_0000_0000_0000_0000_0000)
        by (nonlinear_arith)
        requires
            0 <= x < 0x1_0000_0000,
            0 <= y < 0x1_0000_0000,
            0 <= z < 0x1_0000_0000,
    ;
}

} // verus!
