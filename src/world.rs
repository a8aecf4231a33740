use vstd::prelude::*;

use crate::arbiter::{has_key, is_first_match, key_of, ArbiterCache, FeatureId};
use crate::error::SimError;
use crate::registry::{holds_id, lemma_holds_id_push, BodyRegistry, BodySlot, JointLink};
use crate::schedule::{start_step, StepPhase, TimeStep};

verus! {

/// The bookkeeping of a simulation: its bodies by id, the joints between
/// them, the active arbiters and the number of solver passes per step.
pub struct World {
    bodies: BodyRegistry,
    joints: Vec<JointLink>,
    arbiters: ArbiterCache,
    iterations: u32,
}

impl World {
    /// Bodies have unique ids, every joint links two bodies of this world,
    /// arbiters are unique per pair and non-empty, and there is at least one
    /// solver pass.
    pub open spec fn wf(&self) -> bool {
        &&& self.body_registry().wf()
        &&& self.arbiter_cache().wf()
        &&& self.iteration_count() >= 1
        &&& forall|j: int| 0 <= j < self.joints_view().len() ==> {
            &&& holds_id(self.bodies_view(), (#[trigger] self.joints_view()[j]).body_a)
            &&& holds_id(self.bodies_view(), self.joints_view()[j].body_b)
        }
    }

    pub closed spec fn body_registry(&self) -> BodyRegistry {
        self.bodies
    }

    pub closed spec fn arbiter_cache(&self) -> ArbiterCache {
        self.arbiters
    }

    /// The bodies in insertion order.
    pub open spec fn bodies_view(&self) -> Seq<BodySlot> {
        self.body_registry()@
    }

    /// The joints in order of creation.
    pub closed spec fn joints_view(&self) -> Seq<JointLink> {
        self.joints@
    }

    pub closed spec fn iteration_count(&self) -> u32 {
        self.iterations
    }

    /// An empty world with `iterations` solver passes per step; zero passes
    /// are refused.
    pub fn new(iterations: u32) -> (r: Result<World, SimError>)
        ensures
            iterations == 0 <==> r is Err,
            r is Err ==> r == Err::<World, SimError>(SimError::InvalidArgument),
            r matches Ok(w) ==> {
                &&& w.wf()
                &&& w.bodies_view() == Seq::<BodySlot>::empty()
                &&& w.joints_view() == Seq::<JointLink>::empty()
                &&& w.arbiter_cache()@.len() == 0
                &&& w.iteration_count() == iterations
            },
    {
        if iterations == 0 {
            return Err(SimError::InvalidArgument);
        }
        Ok(World {
            bodies: BodyRegistry::new(),
            joints: Vec::new(),
            arbiters: ArbiterCache::new(),
            iterations,
        })
    }

    /// The number of solver passes per step.
    pub fn iterations(&self) -> (r: u32)
        ensures
            r == self.iteration_count(),
    {
        self.iterations
    }

    /// The number of bodies.
    pub fn body_count(&self) -> (r: usize)
        ensures
            r == self.bodies_view().len(),
    {
        self.bodies.len()
    }

    /// The number of joints.
    pub fn joint_count(&self) -> (r: usize)
        ensures
            r == self.joints_view().len(),
    {
        self.joints.len()
    }

    /// The joint at position `i`.
    pub fn joint(&self, i: usize) -> (r: JointLink)
        requires
            i < self.joints_view().len(),
        ensures
            r == self.joints_view()[i as int],
    {
        self.joints[i]
    }

    /// The arena of bodies.
    pub fn bodies(&self) -> (r: &BodyRegistry)
        ensures
            *r == self.body_registry(),
    {
        &self.bodies
    }

    /// The cache of active arbiters.
    pub fn arbiters(&self) -> (r: &ArbiterCache)
        ensures
            *r == self.arbiter_cache(),
    {
        &self.arbiters
    }

    /// Adds a body; its position in the insertion order is returned. A body
    /// whose id is already in the world is refused and nothing changes.
    pub fn add_body(&mut self, slot: BodySlot) -> (r: Result<usize, SimError>)
        requires
            old(self).wf(),
        ensures
            final(self).wf(),
            final(self).joints_view() == old(self).joints_view(),
            final(self).arbiter_cache() == old(self).arbiter_cache(),
            final(self).iteration_count() == old(self).iteration_count(),
            holds_id(old(self).bodies_view(), slot.id) ==> r == Err::<usize, SimError>(
                SimError::Consistency,
            ) && final(self).bodies_view() == old(self).bodies_view(),
            !holds_id(old(self).bodies_view(), slot.id) ==> r == Ok::<usize, SimError>(
                old(self).bodies_view().len() as usize,
            ) && final(self).bodies_view() == old(self).bodies_view().push(slot),
    {
        let ghost w0 = *self;
        let ghost s0 = self.bodies_view();
        let r = self.bodies.add(slot);
        assert(self.joints_view() == w0.joints_view());
        assert forall|j: int| 0 <= j < self.joints_view().len() implies {
            &&& holds_id(self.bodies_view(), (#[trigger] self.joints_view()[j]).body_a)
            &&& holds_id(self.bodies_view(), self.joints_view()[j].body_b)
        } by {
            assert(self.joints_view()[j] == w0.joints_view()[j]);
            if r is Ok {
                lemma_holds_id_push(s0, slot, self.joints_view()[j].body_a);
                lemma_holds_id_push(s0, slot, self.joints_view()[j].body_b);
            }
        }
        r
    }

    /// Joins the bodies `a` and `b`; the joint's position is returned. Fails,
    /// changing nothing, when either body is not in this world.
    pub fn add_joint(&mut self, a: usize, b: usize) -> (r: Result<usize, SimError>)
        requires
            old(self).wf(),
        ensures
            final(self).wf(),
            final(self).bodies_view() == old(self).bodies_view(),
            final(self).arbiter_cache() == old(self).arbiter_cache(),
            final(self).iteration_count() == old(self).iteration_count(),
            r is Err <==> !holds_id(old(self).bodies_view(), a) || !holds_id(
                old(self).bodies_view(),
                b,
            ),
            r is Err ==> r == Err::<usize, SimError>(SimError::Consistency)
                && final(self).joints_view() == old(self).joints_view(),
            r is Ok ==> r == Ok::<usize, SimError>(old(self).joints_view().len() as usize) && {
                &&& final(self).joints_view().len() == old(self).joints_view().len() + 1
                &&& final(self).joints_view().drop_last() == old(self).joints_view()
                &&& final(self).joints_view().last().body_a == a
                &&& final(self).joints_view().last().body_b == b
            },
    {
        match JointLink::new(&self.bodies, a, b) {
            Ok(link) => {
                let n = self.joints.len();
                let ghost j0 = self.joints_view();
                self.joints.push(link);
                assert(self.joints_view().drop_last() =~= j0);
                assert(holds_id(self.bodies_view(), a)) by {
                    assert(self.bodies_view()[link.slot_a as int].id == a);
                }
                assert(holds_id(self.bodies_view(), b)) by {
                    assert(self.bodies_view()[link.slot_b as int].id == b);
                }
                assert forall|j: int| 0 <= j < self.joints_view().len() implies {
                    &&& holds_id(self.bodies_view(), (#[trigger] self.joints_view()[j]).body_a)
                    &&& holds_id(self.bodies_view(), self.joints_view()[j].body_b)
                } by {
                    if j < j0.len() {
                        assert(self.joints_view()[j] == j0[j]);
                    }
                }
                Ok(n)
            },
            Err(e) => Err(e),
        }
    }

    /// Records this step's contact manifold of the pair `{a, b}` in the
    /// arbiter cache (see `ArbiterCache::update`); the result says which
    /// previous contact each new one inherits its impulses from.
    pub fn record_manifold(&mut self, a: usize, b: usize, contacts: Vec<FeatureId>) -> (r: Vec<
        Option<usize>,
    >)
        requires
            old(self).wf(),
        ensures
            final(self).wf(),
            final(self).bodies_view() == old(self).bodies_view(),
            final(self).joints_view() == old(self).joints_view(),
            final(self).iteration_count() == old(self).iteration_count(),
            r@.len() == contacts@.len(),
            contacts@.len() == 0 ==> !has_key(final(self).arbiter_cache()@, key_of(a, b)),
            contacts@.len() > 0 ==> has_key(final(self).arbiter_cache()@, key_of(a, b)),
            contacts@.len() == 0 && !has_key(old(self).arbiter_cache()@, key_of(a, b))
                ==> final(self).arbiter_cache()@ == old(self).arbiter_cache()@,
            forall|i: int|
                0 <= i < old(self).arbiter_cache()@.len() && (#[trigger] old(
                    self,
                ).arbiter_cache()@[i]).0 == key_of(a, b) ==> {
                    &&& contacts@.len() == 0 ==> final(self).arbiter_cache()@ == old(
                        self,
                    ).arbiter_cache()@.remove(i)
                    &&& contacts@.len() > 0 ==> final(self).arbiter_cache()@ == old(
                        self,
                    ).arbiter_cache()@.update(i, (key_of(a, b), contacts@))
                    &&& forall|t: int|
                        0 <= t < r@.len() ==> is_first_match(
                            old(self).arbiter_cache()@[i].1,
                            contacts@[t],
                            #[trigger] r@[t],
                        )
                },
            contacts@.len() > 0 && !has_key(old(self).arbiter_cache()@, key_of(a, b)) ==> {
                &&& final(self).arbiter_cache()@ == old(self).arbiter_cache()@.push(
                    (key_of(a, b), contacts@),
                )
                &&& forall|t: int| 0 <= t < r@.len() ==> (#[trigger] r@[t]) == None::<usize>
            },
    {
        let ghost w0 = *self;
        let r = self.arbiters.update(a, b, contacts);
        assert(self.bodies_view() == w0.bodies_view());
        assert(self.joints_view() == w0.joints_view());
        r
    }

    /// The stage at which a step of `dt`'s sign begins: a negative time step
    /// is refused, a zero one or an empty world makes the step a no-op.
    pub fn begin_step(&self, dt: TimeStep) -> (r: Result<StepPhase, SimError>)
        requires
            self.wf(),
        ensures
            dt == TimeStep::Negative <==> r is Err,
            r is Err ==> r == Err::<StepPhase, SimError>(SimError::InvalidArgument),
            dt != TimeStep::Negative && (dt == TimeStep::Zero || self.bodies_view().len() == 0)
                ==> r == Ok::<StepPhase, SimError>(StepPhase::Done),
            dt == TimeStep::Positive && self.bodies_view().len() > 0 ==> r == Ok::<
                StepPhase,
                SimError,
            >(StepPhase::IntegrateForces),
    {
        start_step(dt, self.bodies.len(), self.iterations)
    }
}

} // verus!
