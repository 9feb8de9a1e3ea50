use ik_creatures::chain::{ForwardKinematic, Link};
use ik_creatures::fabrik::{InverseKinematic, Step, REACH_CYCLES};
use ik_creatures::skeleton::{Skeleton, Stage};
use ik_creatures::strip::{strip_indices, triangle_list, RimPoint, Side};

fn link(child: usize, parent: usize) -> Link {
    Link { child, parent }
}

type Rig = Skeleton<u32, (i32, i32)>;

fn spine_with_branch() -> (Rig, Vec<usize>, usize) {
    let mut skeleton = Rig::new();
    let spine: Vec<usize> = (0..4).map(|i| skeleton.create_joint(i)).collect();
    let limb = skeleton.create_joint(4);
    assert_eq!(skeleton.register_fk_chain(spine.clone()), 0);
    assert_eq!(skeleton.register_fk_chain(vec![spine[2], limb]), 1);
    (skeleton, spine, limb)
}

#[test]
fn fk_three_joint_chain_links_each_child_to_its_predecessor() {
    let chain = ForwardKinematic::new(vec![0, 1, 2]);
    assert_eq!(chain.tick(), vec![link(1, 0), link(2, 1)]);
}

#[test]
fn fk_short_chains_are_a_no_op() {
    assert!(ForwardKinematic::new(vec![]).tick().is_empty());
    assert!(ForwardKinematic::new(vec![4]).tick().is_empty());
}

#[test]
fn fk_plan_is_the_same_on_every_call() {
    let chain = ForwardKinematic::new(vec![3, 1, 4, 1, 5]);
    assert_eq!(chain.tick(), chain.tick());
}

#[test]
fn fk_attach_hangs_the_chain_from_an_outside_root() {
    let chain = ForwardKinematic::new(vec![7, 8, 9]);
    assert_eq!(chain.attach(2), vec![link(7, 2), link(8, 7), link(9, 8)]);
    assert!(ForwardKinematic::new(vec![]).attach(2).is_empty());
}

#[test]
fn ik_iteration_snaps_sweeps_back_repins_and_sweeps_forward() {
    let chain = InverseKinematic::new(vec![10, 11, 12, 13]);
    assert_eq!(
        chain.iteration_steps(),
        vec![
            Step::SnapTip(13),
            Step::Attach(link(12, 13)),
            Step::Attach(link(11, 12)),
            Step::Attach(link(10, 11)),
            Step::Repin(10),
            Step::Attach(link(11, 10)),
            Step::Attach(link(12, 11)),
            Step::Attach(link(13, 12)),
        ]
    );
    assert_eq!(chain.ends(), Some((10, 13)));
}

#[test]
fn ik_chains_shorter_than_three_are_not_solved() {
    let chain = InverseKinematic::new(vec![1, 2]);
    assert!(chain.iteration_steps().is_empty());
    assert_eq!(chain.ends(), None);
    let run = chain.fabrik();
    assert!(run.is_finished());
    assert_eq!(run.iterations(), 0);
    assert!(!run.reached());
}

#[test]
fn ik_default_cap_is_twenty_iterations() {
    assert_eq!(REACH_CYCLES, 20);
    assert_eq!(InverseKinematic::new(vec![0, 1, 2]).cycles, 20);
}

#[test]
fn ik_unreached_target_runs_all_twenty_iterations() {
    let chain = InverseKinematic::new(vec![0, 1, 2, 3]);
    let mut run = chain.fabrik();
    let mut loops = 0;
    while !run.is_finished() {
        run.record(false);
        loops += 1;
        assert!(loops <= 20);
    }
    assert_eq!(loops, 20);
    assert_eq!(run.iterations(), 20);
    assert!(!run.reached());
}

#[test]
fn ik_reached_target_stops_early() {
    let chain = InverseKinematic::new(vec![0, 1, 2, 3]);
    let mut run = chain.fabrik();
    run.record(false);
    run.record(false);
    run.record(true);
    assert!(run.is_finished());
    assert!(run.reached());
    assert_eq!(run.iterations(), 3);
    run.record(false);
    assert_eq!(run.iterations(), 3);
    assert!(run.reached());
}

#[test]
fn ik_builders_append_at_the_tip() {
    let mut chain = InverseKinematic::new(vec![0, 1]).with_nodes(vec![2]);
    chain.add_nodes(vec![3, 4]);
    assert_eq!(chain.nodes, vec![0, 1, 2, 3, 4]);
    assert_eq!(chain.cycles, 20);
}

#[test]
fn handles_count_up_from_zero() {
    let mut skeleton = Rig::new();
    assert_eq!(skeleton.create_joint(70), 0);
    assert_eq!(skeleton.create_joint(71), 1);
    assert_eq!(skeleton.create_joint(72), 2);
    assert_eq!(skeleton.joint_count(), 3);
    assert_eq!(*skeleton.joint(1), 71);
    assert!(skeleton.knows_all(&vec![0, 2, 1]));
    assert!(!skeleton.knows_all(&vec![0, 3]));
}

#[test]
fn chains_are_kept_in_registration_order() {
    let mut skeleton = Rig::new();
    for i in 0..5 {
        skeleton.create_joint(i);
    }
    assert_eq!(skeleton.register_ik_chain(vec![0, 1, 2], (0, 0)), 0);
    assert_eq!(skeleton.register_ik_chain(vec![2, 3, 4], (0, 0)), 1);
    assert_eq!(skeleton.register_fk_chain(vec![4, 3]), 0);
    assert_eq!(skeleton.fk_chain_count(), 1);
    assert_eq!(skeleton.ik_chain_count(), 2);
    assert_eq!(skeleton.fk_chain(0).nodes, vec![4, 3]);
    assert_eq!(skeleton.ik_chain(1).nodes, vec![2, 3, 4]);
    assert_eq!(skeleton.ik_chain(1).cycles, 20);
}

#[test]
fn tick_runs_forward_chains_before_inverse_chains() {
    let mut skeleton = Rig::new();
    for i in 0..6 {
        skeleton.create_joint(i);
    }
    skeleton.register_ik_chain(vec![3, 4, 5], (0, 0));
    skeleton.register_fk_chain(vec![0, 1, 2]);
    skeleton.register_ik_chain(vec![2, 1, 0], (0, 0));
    skeleton.register_fk_chain(vec![2, 3]);
    assert_eq!(
        skeleton.tick(),
        vec![
            Stage::Propagate(link(1, 0)),
            Stage::Propagate(link(2, 1)),
            Stage::Propagate(link(3, 2)),
            Stage::Solve(0),
            Stage::Solve(1),
        ]
    );
}

#[test]
fn branch_reads_its_root_after_the_spine_moved_it() {
    let (skeleton, spine, limb) = spine_with_branch();
    let plan = skeleton.tick();
    let moved = plan
        .iter()
        .position(|s| *s == Stage::Propagate(link(spine[2], spine[1])))
        .unwrap();
    let read = plan
        .iter()
        .position(|s| *s == Stage::Propagate(link(limb, spine[2])))
        .unwrap();
    assert!(moved < read);
    assert_eq!(read, 3);
}

#[test]
fn empty_skeleton_ticks_nothing() {
    assert!(Rig::new().tick().is_empty());
}

#[test]
fn set_joint_replaces_only_that_joint() {
    let (mut skeleton, spine, limb) = spine_with_branch();
    skeleton.set_joint(spine[1], 40);
    assert_eq!(*skeleton.joint(spine[1]), 40);
    assert_eq!(*skeleton.joint(spine[0]), 0);
    assert_eq!(*skeleton.joint(limb), 4);
    assert_eq!(skeleton.fk_chain(1).nodes, vec![spine[2], limb]);
}

#[test]
fn ik_targets_start_where_registered_and_move_on_request() {
    let mut skeleton = Rig::new();
    for i in 0..3 {
        skeleton.create_joint(i);
    }
    let first = skeleton.register_ik_chain(vec![0, 1, 2], (0, 0));
    let second = skeleton.register_ik_chain(vec![2, 1, 0], (5, 5));
    skeleton.set_ik_target(first, (10, -3));
    assert_eq!(*skeleton.ik_target(first), (10, -3));
    assert_eq!(*skeleton.ik_target(second), (5, 5));
}

#[test]
fn outline_lists_right_then_left_point_per_joint() {
    assert_eq!(
        triangle_list(&vec![4, 9]),
        vec![
            RimPoint { joint: 4, side: Side::Right },
            RimPoint { joint: 4, side: Side::Left },
            RimPoint { joint: 9, side: Side::Right },
            RimPoint { joint: 9, side: Side::Left },
        ]
    );
    assert!(triangle_list(&vec![]).is_empty());
}

#[test]
fn strip_of_four_vertices_is_one_quad() {
    assert_eq!(strip_indices(4), vec![0, 1, 2, 2, 1, 3]);
}

#[test]
fn strip_of_six_vertices_is_two_quads() {
    assert_eq!(strip_indices(6), vec![0, 1, 2, 2, 1, 3, 2, 3, 4, 4, 3, 5]);
}

#[test]
fn strip_ignores_a_trailing_odd_vertex() {
    assert_eq!(strip_indices(5), vec![0, 1, 2, 2, 1, 3]);
}

#[test]
fn strip_of_fewer_than_four_vertices_is_empty() {
    assert!(strip_indices(0).is_empty());
    assert!(strip_indices(3).is_empty());
}

#[test]
fn strip_of_the_largest_outline_reaches_the_last_index() {
    let indices = strip_indices(0x10000);
    assert_eq!(indices.len(), 6 * 0x7fff);
    assert_eq!(indices[indices.len() - 1], 0xffff);
}
