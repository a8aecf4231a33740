use vstd::prelude::*;

use crate::error::SimError;

verus! {

/// What the world's bookkeeping knows of one body: its id and whether it is
/// immovable (infinite mass).
#[derive(Debug, Clone, Copy, PartialEq, Eq, Structural)]
pub struct BodySlot {
    pub id: usize,
    pub immovable: bool,
}

/// Whether some slot of `s` carries id `id`.
pub open spec fn holds_id(s: Seq<BodySlot>, id: usize) -> bool {
    exists|i: int| 0 <= i < s.len() && (#[trigger] s[i]).id == id
}

/// No two slots carry the same id.
pub open spec fn ids_unique(s: Seq<BodySlot>) -> bool {
    forall|i: int, j: int|
        0 <= i < s.len() && 0 <= j < s.len() && i != j ==> (#[trigger] s[i]).id != (
        #[trigger] s[j]).id
}

/// An id held by an arena is still held after another slot is appended.
pub proof fn lemma_holds_id_push(s: Seq<BodySlot>, x: BodySlot, id: usize)
    requires
        holds_id(s, id),
    ensures
        holds_id(s.push(x), id),
{
    let i = choose|i: int| 0 <= i < s.len() && (#[trigger] s[i]).id == id;
    assert(s.push(x)[i] == s[i]);
}

/// The world's arena of bodies, in insertion order, each reachable by id.
pub struct BodyRegistry {
    slots: Vec<BodySlot>,
}

impl View for BodyRegistry {
    type V = Seq<BodySlot>;

    closed spec fn view(&self) -> Seq<BodySlot> {
        self.slots@
    }
}

impl BodyRegistry {
    pub open spec fn wf(&self) -> bool {
        ids_unique(self@)
    }

    /// An empty arena.
    pub fn new() -> (r: BodyRegistry)
        ensures
            r@ == Seq::<BodySlot>::empty(),
            r.wf(),
    {
        BodyRegistry { slots: Vec::new() }
    }

    /// The number of bodies.
    pub fn len(&self) -> (r: usize)
        ensures
            r == self@.len(),
    {
        self.slots.len()
    }

    /// The slot at position `i`.
    pub fn slot(&self, i: usize) -> (r: BodySlot)
        requires
            i < self@.len(),
        ensures
            r == self@[i as int],
    {
        self.slots[i]
    }

    /// The position of the body with id `id`, if it is in the world.
    pub fn index_of(&self, id: usize) -> (r: Option<usize>)
        ensures
            match r {
                Some(i) => i < self@.len() && self@[i as int].id == id,
                None => !holds_id(self@, id),
            },
    {
        let mut i: usize = 0;
        while i < self.slots.len()
            invariant
                i <= self@.len(),
                forall|t: int| 0 <= t < i ==> (#[trigger] self@[t]).id != id,
            decreases self@.len() - i,
        {
            if self.slots[i].id == id {
                return Some(i);
            }
            i = i + 1;
        }
        None
    }

    /// Whether the body with id `id` is in the world.
    pub fn contains(&self, id: usize) -> (r: bool)
        ensures
            r == holds_id(self@, id),
    {
        self.index_of(id).is_some()
    }

    /// Adds a body at the end of the insertion order and returns its
    /// position; a body whose id is already present is refused.
    pub fn add(&mut self, slot: BodySlot) -> (r: Result<usize, SimError>)
        requires
            old(self).wf(),
        ensures
            final(self).wf(),
            holds_id(old(self)@, slot.id) ==> r == Err::<usize, SimError>(SimError::Consistency)
                && final(self)@ == old(self)@,
            !holds_id(old(self)@, slot.id) ==> r == Ok::<usize, SimError>(old(self)@.len() as usize)
                && final(self)@ == old(self)@.push(slot),
    {
        if self.contains(slot.id) {
            return Err(SimError::Consistency);
        }
        let ghost s0 = self@;
        let n = self.slots.len();
        self.slots.push(slot);
        assert(ids_unique(self@)) by {
            assert forall|i: int, j: int|
                0 <= i < self@.len() && 0 <= j < self@.len() && i != j implies (
                #[trigger] self@[i]).id != (#[trigger] self@[j]).id by {
                if i < s0.len() && j < s0.len() {
                    assert(self@[i] == s0[i] && self@[j] == s0[j]);
                } else if i < s0.len() {
                    assert(self@[i] == s0[i]);
                } else if j < s0.len() {
                    assert(self@[j] == s0[j]);
                }
            }
        }
        Ok(n)
    }

    /// A fresh copy of the slots in insertion order: each call reflects the
    /// current state and is independent of later changes.
    pub fn snapshot(&self) -> (r: Vec<BodySlot>)
        ensures
            r@ == self@,
    {
        let mut r: Vec<BodySlot> = Vec::new();
        let mut i: usize = 0;
        while i < self.slots.len()
            invariant
                i <= self@.len(),
                r@ == self@.subrange(0, i as int),
            decreases self@.len() - i,
        {
            r.push(self.slots[i]);
            i = i + 1;
        }
        assert(r@ =~= self@);
        r
    }
}

/// A joint's link to the two bodies it constrains, by id and by position in
/// the arena.
#[derive(Debug, Clone, Copy, PartialEq, Eq, Structural)]
pub struct JointLink {
    pub body_a: usize,
    pub body_b: usize,
    pub slot_a: usize,
    pub slot_b: usize,
}

impl JointLink {
    /// Links the bodies `a` and `b` of `world`; fails when either of them is
    /// not a member of that world.
    pub fn new(world: &BodyRegistry, a: usize, b: usize) -> (r: Result<JointLink, SimError>)
        ensures
            r is Err <==> !holds_id(world@, a) || !holds_id(world@, b),
            r is Err ==> r == Err::<JointLink, SimError>(SimError::Consistency),
            r matches Ok(l) ==> {
                &&& l.body_a == a && l.body_b == b
                &&& l.slot_a < world@.len() && world@[l.slot_a as int].id == a
                &&& l.slot_b < world@.len() && world@[l.slot_b as int].id == b
            },
    {
        match (world.index_of(a), world.index_of(b)) {
            (Some(i), Some(j)) => Ok(JointLink { body_a: a, body_b: b, slot_a: i, slot_b: j }),
            _ => Err(SimError::Consistency),
        }
    }
}

} // verus!
