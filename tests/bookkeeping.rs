use pysylt_2d::arbiter::{
    carry_impulses, find_feature, match_features, reference_side, ArbiterCache, ArbiterKey, FeatureId,
    SeparationOrder, Side,
};
use pysylt_2d::broadphase::candidate_pairs;
use pysylt_2d::error::SimError;
use pysylt_2d::registry::{BodyRegistry, BodySlot, JointLink};
use pysylt_2d::schedule::{
    next_phase, solve_pass, start_step, step_plan, SolveTask, StepPhase, TimeStep,
};
use pysylt_2d::world::World;

fn slot(id: usize, immovable: bool) -> BodySlot {
    BodySlot { id, immovable }
}

fn ee(r: usize, i: usize) -> FeatureId {
    FeatureId::EdgeEdge { reference_edge: r, incident_edge: i }
}

#[test]
fn arbiter_key_is_canonical() {
    let k = ArbiterKey::new(7, 3);
    assert_eq!(k, ArbiterKey { low: 3, high: 7 });
    assert_eq!(ArbiterKey::new(3, 7), k);
    assert_eq!(ArbiterKey::new(4, 4), ArbiterKey { low: 4, high: 4 });
}

#[test]
fn find_feature_takes_first_match() {
    let prev = vec![ee(0, 1), ee(1, 2), ee(0, 1)];
    assert_eq!(find_feature(&prev, ee(0, 1)), Some(0));
    assert_eq!(find_feature(&prev, ee(1, 2)), Some(1));
    assert_eq!(find_feature(&prev, ee(2, 2)), None);
    assert_eq!(find_feature(&Vec::new(), ee(0, 1)), None);
}

#[test]
fn feature_variants_are_distinct() {
    let prev = vec![FeatureId::VertexVertex { vertex_a: 1, vertex_b: 2 }];
    let cur = vec![
        FeatureId::VertexEdge { vertex: 1, edge: 2 },
        FeatureId::VertexVertex { vertex_a: 1, vertex_b: 2 },
        ee(1, 2),
    ];
    assert_eq!(match_features(&prev, &cur), vec![None, Some(0), None]);
}

#[test]
fn match_features_reordered_contacts() {
    let prev = vec![ee(0, 2), ee(0, 3)];
    let cur = vec![ee(0, 3), ee(0, 2)];
    assert_eq!(match_features(&prev, &cur), vec![Some(1), Some(0)]);
}

#[test]
fn cache_new_arbiter_starts_cold() {
    let mut c = ArbiterCache::new();
    let m = c.update(5, 2, vec![ee(0, 1), ee(0, 2)]);
    assert_eq!(m, vec![None, None]);
    assert_eq!(c.len(), 1);
    assert_eq!(c.position(ArbiterKey::new(2, 5)), Some(0));
}

#[test]
fn cache_warm_starts_by_feature() {
    let mut c = ArbiterCache::new();
    c.update(1, 2, vec![ee(0, 1), ee(0, 2)]);
    // the same pair seen the other way round
    let m = c.update(2, 1, vec![ee(0, 2), ee(3, 1)]);
    assert_eq!(m, vec![Some(1), None]);
    assert_eq!(c.len(), 1);
    let again = c.update(1, 2, vec![ee(3, 1)]);
    assert_eq!(again, vec![Some(1)]);
}

#[test]
fn cache_evicts_empty_manifold() {
    let mut c = ArbiterCache::new();
    c.update(1, 2, vec![ee(0, 1)]);
    c.update(3, 4, vec![ee(0, 1)]);
    let m = c.update(2, 1, Vec::new());
    assert!(m.is_empty());
    assert_eq!(c.len(), 1);
    assert_eq!(c.position(ArbiterKey::new(1, 2)), None);
    assert_eq!(c.position(ArbiterKey::new(3, 4)), Some(0));
    // contact resumes: no stale impulses are inherited
    let m = c.update(1, 2, vec![ee(0, 1)]);
    assert_eq!(m, vec![None]);
    // separation of a pair never seen changes nothing
    c.update(8, 9, Vec::new());
    assert_eq!(c.len(), 2);
}

#[test]
fn reference_side_tie_break() {
    assert_eq!(reference_side(SeparationOrder::AGreater, 9, 1), Side::A);
    assert_eq!(reference_side(SeparationOrder::ALess, 1, 9), Side::B);
    assert_eq!(reference_side(SeparationOrder::Equal, 1, 9), Side::A);
    assert_eq!(reference_side(SeparationOrder::Equal, 9, 1), Side::B);
}

#[test]
fn registry_keeps_order_and_refuses_duplicates() {
    let mut r = BodyRegistry::new();
    assert_eq!(r.add(slot(10, true)), Ok(0));
    assert_eq!(r.add(slot(4, false)), Ok(1));
    assert_eq!(r.add(slot(10, false)), Err(SimError::Consistency));
    assert_eq!(r.len(), 2);
    assert_eq!(r.index_of(4), Some(1));
    assert_eq!(r.index_of(5), None);
    assert!(r.contains(10));
    assert_eq!(r.slot(0), slot(10, true));
    assert_eq!(r.snapshot(), vec![slot(10, true), slot(4, false)]);
}

#[test]
fn snapshot_is_independent_of_later_changes() {
    let mut r = BodyRegistry::new();
    r.add(slot(1, false)).unwrap();
    let snap = r.snapshot();
    r.add(slot(2, false)).unwrap();
    assert_eq!(snap, vec![slot(1, false)]);
    assert_eq!(r.snapshot().len(), 2);
}

#[test]
fn joint_link_requires_members() {
    let mut r = BodyRegistry::new();
    r.add(slot(3, false)).unwrap();
    r.add(slot(8, false)).unwrap();
    assert_eq!(
        JointLink::new(&r, 8, 3),
        Ok(JointLink { body_a: 8, body_b: 3, slot_a: 1, slot_b: 0 })
    );
    assert_eq!(JointLink::new(&r, 3, 9), Err(SimError::Consistency));
    assert_eq!(JointLink::new(&r, 9, 3), Err(SimError::Consistency));
}

#[test]
fn candidate_pairs_skip_static_static() {
    let slots = vec![slot(0, true), slot(1, false), slot(2, true), slot(3, false)];
    assert_eq!(candidate_pairs(&slots), vec![(0, 1), (0, 3), (1, 2), (1, 3), (2, 3)]);
}

#[test]
fn candidate_pairs_edge_cases() {
    assert!(candidate_pairs(&Vec::new()).is_empty());
    assert!(candidate_pairs(&vec![slot(0, false)]).is_empty());
    assert!(candidate_pairs(&vec![slot(0, true), slot(1, true)]).is_empty());
    assert_eq!(candidate_pairs(&vec![slot(0, false), slot(1, false)]), vec![(0, 1)]);
}

#[test]
fn start_step_validates_time_step() {
    assert_eq!(start_step(TimeStep::Negative, 3, 10), Err(SimError::InvalidArgument));
    assert_eq!(start_step(TimeStep::Negative, 3, 0), Err(SimError::InvalidArgument));
    assert_eq!(start_step(TimeStep::Positive, 3, 0), Err(SimError::Consistency));
    assert_eq!(start_step(TimeStep::Zero, 3, 10), Ok(StepPhase::Done));
    assert_eq!(start_step(TimeStep::Positive, 0, 10), Ok(StepPhase::Done));
    assert_eq!(start_step(TimeStep::Positive, 2, 10), Ok(StepPhase::IntegrateForces));
}

#[test]
fn phases_advance_in_order() {
    assert_eq!(next_phase(StepPhase::WarmStart, 2), StepPhase::Iterate { pass: 0 });
    assert_eq!(next_phase(StepPhase::Iterate { pass: 0 }, 2), StepPhase::Iterate { pass: 1 });
    assert_eq!(next_phase(StepPhase::Iterate { pass: 1 }, 2), StepPhase::IntegratePositions);
    assert_eq!(next_phase(StepPhase::Done, 2), StepPhase::Done);
    assert_eq!(
        next_phase(StepPhase::Iterate { pass: u32::MAX }, u32::MAX),
        StepPhase::IntegratePositions
    );
}

#[test]
fn step_plan_runs_exactly_iterations_passes() {
    let p = step_plan(3);
    assert_eq!(
        p,
        vec![
            StepPhase::IntegrateForces,
            StepPhase::Collide,
            StepPhase::Prepare,
            StepPhase::WarmStart,
            StepPhase::Iterate { pass: 0 },
            StepPhase::Iterate { pass: 1 },
            StepPhase::Iterate { pass: 2 },
            StepPhase::IntegratePositions,
        ]
    );
    assert_eq!(step_plan(1).len(), 6);
    assert_eq!(step_plan(10).len(), 15);
}

#[test]
fn solve_pass_contacts_before_joints() {
    assert_eq!(
        solve_pass(2, 1),
        vec![
            SolveTask::Contact { index: 0 },
            SolveTask::Contact { index: 1 },
            SolveTask::Joint { index: 0 },
        ]
    );
    assert!(solve_pass(0, 0).is_empty());
    assert_eq!(solve_pass(0, 1), vec![SolveTask::Joint { index: 0 }]);
}

#[test]
fn world_refuses_zero_iterations() {
    assert!(matches!(World::new(0), Err(SimError::InvalidArgument)));
    assert_eq!(World::new(10).unwrap().iterations(), 10);
}

#[test]
fn world_bodies_and_joints() {
    let mut w = World::new(10).unwrap();
    assert_eq!(w.begin_step(TimeStep::Positive), Ok(StepPhase::Done));
    assert_eq!(w.add_body(slot(1, true)), Ok(0));
    assert_eq!(w.add_body(slot(2, false)), Ok(1));
    assert_eq!(w.add_body(slot(2, false)), Err(SimError::Consistency));
    assert_eq!(w.body_count(), 2);
    assert_eq!(w.add_joint(1, 2), Ok(0));
    assert_eq!(w.add_joint(1, 3), Err(SimError::Consistency));
    assert_eq!(w.joint_count(), 1);
    assert_eq!(w.joint(0), JointLink { body_a: 1, body_b: 2, slot_a: 0, slot_b: 1 });
    assert_eq!(w.bodies().index_of(2), Some(1));
    assert_eq!(w.begin_step(TimeStep::Negative), Err(SimError::InvalidArgument));
    assert_eq!(w.begin_step(TimeStep::Zero), Ok(StepPhase::Done));
    assert_eq!(w.begin_step(TimeStep::Positive), Ok(StepPhase::IntegrateForces));
}

#[test]
fn world_records_manifolds() {
    let mut w = World::new(10).unwrap();
    w.add_body(slot(1, true)).unwrap();
    w.add_body(slot(2, false)).unwrap();
    assert_eq!(w.record_manifold(2, 1, vec![ee(0, 1), ee(0, 2)]), vec![None, None]);
    assert_eq!(w.record_manifold(1, 2, vec![ee(0, 2)]), vec![Some(1)]);
    assert_eq!(w.arbiters().len(), 1);
    w.record_manifold(1, 2, Vec::new());
    assert_eq!(w.arbiters().len(), 0);
}

#[test]
fn warm_start_carries_matched_impulses() {
    let prev_features = vec![ee(0, 2), ee(0, 3)];
    let prev_impulses: Vec<(f32, f32)> = vec![(1.5, -0.25), (2.0, 0.5)];
    let cur = vec![ee(0, 3), ee(1, 1), ee(0, 2)];
    let links = match_features(&prev_features, &cur);
    let carried = carry_impulses(&prev_impulses, &links, (0.0, 0.0));
    assert_eq!(carried, vec![(2.0, 0.5), (0.0, 0.0), (1.5, -0.25)]);
    assert!(carry_impulses(&prev_impulses, &Vec::new(), (0.0, 0.0)).is_empty());
}
