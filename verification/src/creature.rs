//! How a creature is assembled from its blueprint: which joints can be
//! built, and the controllable degrees of freedom (one per motor of every
//! built joint) in the order the controller reads and drives them.

use vstd::prelude::*;

use crate::blueprint::{total_motors, CreatureBlueprint, JointKind, MotorAxis};
use crate::network::genome_len_spec;

verus! {

/// The axis about which a degree of freedom's joint angle is sensed.
#[derive(Clone, Copy, PartialEq, Eq, Structural, Debug)]
pub enum SenseAxis {
    /// The rotation axis of the revolute joint itself (normalized).
    JointAxis,
    /// The unit axis of the motor.
    Motor(MotorAxis),
}

/// One controllable degree of freedom: motor `motor` of joint `joint`,
/// driven about `drive_axis` of the joint frame and sensed about
/// `sense_axis` of the parent link.
#[derive(Clone, Copy, PartialEq, Eq, Structural, Debug)]
pub struct DofPlan {
    pub joint: usize,
    pub motor: usize,
    pub drive_axis: MotorAxis,
    pub sense_axis: SenseAxis,
    pub parent_link: usize,
    pub child_link: usize,
}

/// The assembly plan of a creature.
#[derive(Clone, Debug)]
pub struct CreaturePlan {
    /// Joints whose links both exist, in blueprint order.
    pub built_joints: Vec<usize>,
    /// Joints that reference a link index out of range; they are skipped.
    pub skipped_joints: Vec<usize>,
    /// Degrees of freedom of the built joints, in blueprint order.
    pub dofs: Vec<DofPlan>,
}

/// Joint `j` connects two links of the blueprint.
pub open spec fn joint_in_range(bp: CreatureBlueprint, j: int) -> bool {
    &&& bp.joints@[j].parent < bp.links@.len()
    &&& bp.joints@[j].child < bp.links@.len()
}

/// The degree of freedom of motor `m` of joint `j`. A revolute joint's
/// free rotation is always the joint-frame X axis, sensed about the joint's
/// own axis; other joints are driven and sensed about the motor's axis.
pub open spec fn dof_of(bp: CreatureBlueprint, j: int, m: int) -> DofPlan {
    let joint = bp.joints@[j];
    let axis = joint.motors@[m].axis;
    DofPlan {
        joint: j as usize,
        motor: m as usize,
        drive_axis: if joint.kind == JointKind::Revolute {
            MotorAxis::AngX
        } else {
            axis
        },
        sense_axis: if joint.kind == JointKind::Revolute {
            SenseAxis::JointAxis
        } else {
            SenseAxis::Motor(axis)
        },
        parent_link: joint.parent,
        child_link: joint.child,
    }
}

/// The degrees of freedom of joint `j`, one per motor.
pub open spec fn joint_dofs(bp: CreatureBlueprint, j: int) -> Seq<DofPlan> {
    Seq::new(bp.joints@[j].motors@.len(), |m: int| dof_of(bp, j, m))
}

/// Degrees of freedom of the built joints among the first `n`.
pub open spec fn planned_dofs(bp: CreatureBlueprint, n: nat) -> Seq<DofPlan>
    decreases n,
{
    if n == 0 {
        Seq::empty()
    } else {
        planned_dofs(bp, (n - 1) as nat) + if joint_in_range(bp, n - 1) {
            joint_dofs(bp, n - 1)
        } else {
            Seq::empty()
        }
    }
}

/// The built joints among the first `n`.
pub open spec fn built_joints(bp: CreatureBlueprint, n: nat) -> Seq<usize>
    decreases n,
{
    if n == 0 {
        Seq::empty()
    } else if joint_in_range(bp, n - 1) {
        built_joints(bp, (n - 1) as nat).push((n - 1) as usize)
    } else {
        built_joints(bp, (n - 1) as nat)
    }
}

/// The skipped joints among the first `n`.
pub open spec fn skipped_joints(bp: CreatureBlueprint, n: nat) -> Seq<usize>
    decreases n,
{
    if n == 0 {
        Seq::empty()
    } else if joint_in_range(bp, n - 1) {
        skipped_joints(bp, (n - 1) as nat)
    } else {
        skipped_joints(bp, (n - 1) as nat).push((n - 1) as usize)
    }
}

/// Plans the assembly of a creature: every joint whose parent and child are
/// links of the blueprint is built, the others are skipped, and each motor of
/// a built joint becomes a degree of freedom.
pub fn plan_creature(blueprint: &CreatureBlueprint) -> (plan: CreaturePlan)
    ensures
        plan.built_joints@ == built_joints(*blueprint, blueprint.joints@.len()),
        plan.skipped_joints@ == skipped_joints(*blueprint, blueprint.joints@.len()),
        plan.dofs@ == planned_dofs(*blueprint, blueprint.joints@.len()),
        forall|k: int|
            0 <= k < plan.dofs@.len() ==> dof_drives_motor(*blueprint, #[trigger] plan.dofs@[k]),
        forall|k1: int, k2: int|
            0 <= k1 < k2 < plan.dofs@.len() ==> (#[trigger] plan.dofs@[k1]).joint
                < (#[trigger] plan.dofs@[k2]).joint || (plan.dofs@[k1].joint == plan.dofs@[k2].joint
                && plan.dofs@[k1].motor < plan.dofs@[k2].motor),
        forall|j: int, m: int|
            0 <= j < blueprint.joints@.len() && joint_in_range(*blueprint, j) && 0 <= m
                < blueprint.joints@[j].motors@.len() ==> #[trigger] motor_has_dof(plan.dofs@, j, m),
{
    let ghost bp = *blueprint;
    let mut built: Vec<usize> = Vec::new();
    let mut skipped: Vec<usize> = Vec::new();
    let mut dofs: Vec<DofPlan> = Vec::new();
    let link_count: usize = blueprint.links.len();
    let mut j: usize = 0;
    while j < blueprint.joints.len()
        invariant
            bp == *blueprint,
            link_count == blueprint.links@.len(),
            j <= blueprint.joints@.len(),
            built@ == built_joints(bp, j as nat),
            skipped@ == skipped_joints(bp, j as nat),
            dofs@ == planned_dofs(bp, j as nat),
        decreases blueprint.joints@.len() - j,
    {
        let joint = &blueprint.joints[j];
        if joint.parent < link_count && joint.child < link_count {
            built.push(j);
            let ghost before = dofs@;
            let mut m: usize = 0;
            while m < joint.motors.len()
                invariant
                    bp == *blueprint,
                    j < blueprint.joints@.len(),
                    *joint == blueprint.joints@[j as int],
                    m <= joint.motors@.len(),
                    dofs@ == before + joint_dofs(bp, j as int).take(m as int),
                decreases joint.motors@.len() - m,
            {
                let axis: MotorAxis = joint.motors[m].axis;
                let dof = match joint.kind {
                    JointKind::Revolute => DofPlan {
                        joint: j,
                        motor: m,
                        drive_axis: MotorAxis::AngX,
                        sense_axis: SenseAxis::JointAxis,
                        parent_link: joint.parent,
                        child_link: joint.child,
                    },
                    _ => DofPlan {
                        joint: j,
                        motor: m,
                        drive_axis: axis,
                        sense_axis: SenseAxis::Motor(axis),
                        parent_link: joint.parent,
                        child_link: joint.child,
                    },
                };
                dofs.push(dof);
                assert(joint_dofs(bp, j as int).take(m + 1) =~= joint_dofs(bp, j as int).take(
                    m as int,
                ).push(dof_of(bp, j as int, m as int)));
                m = m + 1;
            }
            assert(joint_dofs(bp, j as int).take(joint.motors@.len() as int) =~= joint_dofs(
                bp,
                j as int,
            ));
        } else {
            skipped.push(j);
            assert(dofs@ =~= planned_dofs(bp, (j + 1) as nat));
        }
        j = j + 1;
    }
    proof {
        lemma_plan_one_dof_per_motor(bp);
    }
    CreaturePlan { built_joints: built, skipped_joints: skipped, dofs }
}


/// Every joint of the blueprint connects two of its links.
pub open spec fn all_joints_in_range(bp: CreatureBlueprint) -> bool {
    forall|j: int| 0 <= j < bp.joints@.len() ==> joint_in_range(bp, j)
}

proof fn lemma_planned_count(bp: CreatureBlueprint, n: nat)
    requires
        n <= bp.joints@.len(),
    ensures
        planned_dofs(bp, n).len() <= total_motors(bp.joints@.take(n as int)),
        (forall|j: int| 0 <= j < n ==> joint_in_range(bp, j)) ==> planned_dofs(bp, n).len()
            == total_motors(bp.joints@.take(n as int)),
    decreases n,
{
    if n > 0 {
        lemma_planned_count(bp, (n - 1) as nat);
        assert(bp.joints@.take(n as int).drop_last() =~= bp.joints@.take(n - 1));
    }
}

/// A creature has at most one degree of freedom per motor of its blueprint,
/// and exactly one per motor when every joint connects two of its links:
/// the creature's action size equals the blueprint's action size.
pub proof fn lemma_creature_action_size(bp: CreatureBlueprint)
    ensures
        planned_dofs(bp, bp.joints@.len()).len() <= bp.spec_action_size(),
        all_joints_in_range(bp) ==> planned_dofs(bp, bp.joints@.len()).len()
            == bp.spec_action_size(),
{
    lemma_planned_count(bp, bp.joints@.len());
    assert(bp.joints@.take(bp.joints@.len() as int) =~= bp.joints@);
}

proof fn lemma_planned_dofs_valid(bp: CreatureBlueprint, n: nat)
    requires
        n <= bp.joints@.len(),
    ensures
        forall|k: int|
            0 <= k < planned_dofs(bp, n).len() ==> {
                let d = #[trigger] planned_dofs(bp, n)[k];
                &&& d.joint < n
                &&& joint_in_range(bp, d.joint as int)
                &&& d.motor < bp.joints@[d.joint as int].motors@.len()
                &&& d == dof_of(bp, d.joint as int, d.motor as int)
                &&& d.parent_link < bp.links@.len()
                &&& d.child_link < bp.links@.len()
            },
    decreases n,
{
    if n > 0 {
        lemma_planned_dofs_valid(bp, (n - 1) as nat);
        let prev = planned_dofs(bp, (n - 1) as nat);
        assert forall|k: int| 0 <= k < planned_dofs(bp, n).len() implies {
            let d = #[trigger] planned_dofs(bp, n)[k];
            &&& d.joint < n
            &&& joint_in_range(bp, d.joint as int)
            &&& d.motor < bp.joints@[d.joint as int].motors@.len()
            &&& d == dof_of(bp, d.joint as int, d.motor as int)
            &&& d.parent_link < bp.links@.len()
            &&& d.child_link < bp.links@.len()
        } by {
            if k < prev.len() {
                assert(planned_dofs(bp, n)[k] == prev[k]);
            } else {
                assert(joint_in_range(bp, n - 1));
                let m: int = k - prev.len();
                assert(planned_dofs(bp, n)[k] == joint_dofs(bp, n - 1)[m]);
                assert(0 <= m < bp.joints@[n - 1].motors@.len());
                assert(bp.joints.len() == bp.joints@.len());
                assert(bp.joints@[n - 1].motors.len() == bp.joints@[n - 1].motors@.len());
                assert(joint_dofs(bp, n - 1)[m] == dof_of(bp, n - 1, m));
                assert(dof_of(bp, n - 1, m).joint as int == n - 1);
                assert(dof_of(bp, n - 1, m).motor as int == m);
            }
        }
    }
}

/// Some degree of freedom of `dofs` drives motor `m` of joint `j`.
pub open spec fn motor_has_dof(dofs: Seq<DofPlan>, j: int, m: int) -> bool {
    exists|k: int| 0 <= k < dofs.len() && (#[trigger] dofs[k]).joint == j && dofs[k].motor == m
}

/// Degree of freedom `d` drives a motor of a joint of `bp` whose links both
/// exist, is attached to that joint's links, and is driven and sensed about
/// that motor's own axis (a revolute joint: driven about its X axis and
/// sensed about the joint axis).
pub open spec fn dof_drives_motor(bp: CreatureBlueprint, d: DofPlan) -> bool {
    let joint = bp.joints@[d.joint as int];
    &&& d.joint < bp.joints@.len()
    &&& joint.parent < bp.links@.len() && joint.child < bp.links@.len()
    &&& d.motor < joint.motors@.len()
    &&& d.parent_link == joint.parent && d.child_link == joint.child
    &&& d.drive_axis == if joint.kind == JointKind::Revolute {
        MotorAxis::AngX
    } else {
        joint.motors@[d.motor as int].axis
    }
    &&& d.sense_axis == if joint.kind == JointKind::Revolute {
        SenseAxis::JointAxis
    } else {
        SenseAxis::Motor(joint.motors@[d.motor as int].axis)
    }
}

proof fn lemma_planned_tail(bp: CreatureBlueprint, n: nat)
    requires
        0 < n <= bp.joints@.len(),
    ensures
        ({
            let prev = planned_dofs(bp, (n - 1) as nat);
            let now = planned_dofs(bp, n);
            &&& now.len() == prev.len() + if joint_in_range(bp, n - 1) {
                bp.joints@[n - 1].motors@.len() as int
            } else {
                0int
            }
            &&& forall|k: int| 0 <= k < prev.len() ==> now[k] == #[trigger] prev[k]
            &&& forall|k: int|
                prev.len() <= k < now.len() ==> #[trigger] now[k] == dof_of(bp, n - 1, k - prev.len())
                    && (now[k].joint as int) == n - 1 && (now[k].motor as int) == k - prev.len()
        }),
{
    let prev = planned_dofs(bp, (n - 1) as nat);
    let now = planned_dofs(bp, n);
    let last: int = n - 1;
    assert(bp.joints.len() == bp.joints@.len());
    assert(bp.joints@[last].motors.len() == bp.joints@[last].motors@.len());
    assert forall|k: int| prev.len() <= k < now.len() implies #[trigger] now[k] == dof_of(
        bp,
        last,
        k - prev.len(),
    ) && (now[k].joint as int) == last && (now[k].motor as int) == k - prev.len() by {
        let m: int = k - prev.len();
        assert(now[k] == joint_dofs(bp, last)[m]);
    }
}

proof fn lemma_planned_dofs_drive_motors(bp: CreatureBlueprint, n: nat)
    requires
        n <= bp.joints@.len(),
    ensures
        forall|k: int|
            0 <= k < planned_dofs(bp, n).len() ==> (#[trigger] planned_dofs(bp, n)[k]).joint < n
                && dof_drives_motor(bp, planned_dofs(bp, n)[k]),
    decreases n,
{
    if n > 0 {
        lemma_planned_dofs_drive_motors(bp, (n - 1) as nat);
        lemma_planned_tail(bp, n);
    }
}

proof fn lemma_planned_dofs_ordered(bp: CreatureBlueprint, n: nat)
    requires
        n <= bp.joints@.len(),
    ensures
        forall|k1: int, k2: int|
            0 <= k1 < k2 < planned_dofs(bp, n).len() ==> {
                let d1 = #[trigger] planned_dofs(bp, n)[k1];
                let d2 = #[trigger] planned_dofs(bp, n)[k2];
                d1.joint < d2.joint || (d1.joint == d2.joint && d1.motor < d2.motor)
            },
    decreases n,
{
    if n > 0 {
        lemma_planned_dofs_ordered(bp, (n - 1) as nat);
        lemma_planned_dofs_drive_motors(bp, (n - 1) as nat);
        lemma_planned_tail(bp, n);
    }
}

proof fn lemma_planned_dofs_cover(bp: CreatureBlueprint, n: nat)
    requires
        n <= bp.joints@.len(),
    ensures
        forall|j: int, m: int|
            0 <= j < n && joint_in_range(bp, j) && 0 <= m < bp.joints@[j].motors@.len()
                ==> #[trigger] motor_has_dof(planned_dofs(bp, n), j, m),
    decreases n,
{
    if n > 0 {
        lemma_planned_dofs_cover(bp, (n - 1) as nat);
        lemma_planned_tail(bp, n);
        let prev = planned_dofs(bp, (n - 1) as nat);
        let now = planned_dofs(bp, n);
        assert forall|j: int, m: int|
            0 <= j < n && joint_in_range(bp, j) && 0 <= m < bp.joints@[j].motors@.len()
                implies #[trigger] motor_has_dof(now, j, m) by {
            if j < n - 1 {
                assert(motor_has_dof(prev, j, m));
                let k = choose|k: int|
                    0 <= k < prev.len() && (#[trigger] prev[k]).joint == j && prev[k].motor == m;
                assert(now[k] == prev[k]);
            } else {
                let k: int = prev.len() + m;
                assert(now[k] == dof_of(bp, n - 1, m));
            }
        }
    }
}

/// The plan's degrees of freedom correspond one to one to the motors of the
/// built joints, in blueprint order: each drives a motor of a joint whose
/// links both exist, about that motor's own axis; they come joint after
/// joint, motor after motor, so no motor is driven twice; and every motor of
/// every built joint is driven.
pub proof fn lemma_plan_one_dof_per_motor(bp: CreatureBlueprint)
    ensures
        forall|k: int|
            0 <= k < planned_dofs(bp, bp.joints@.len()).len() ==> dof_drives_motor(
                bp,
                #[trigger] planned_dofs(bp, bp.joints@.len())[k],
            ),
        forall|k1: int, k2: int|
            0 <= k1 < k2 < planned_dofs(bp, bp.joints@.len()).len() ==> {
                let d1 = #[trigger] planned_dofs(bp, bp.joints@.len())[k1];
                let d2 = #[trigger] planned_dofs(bp, bp.joints@.len())[k2];
                d1.joint < d2.joint || (d1.joint == d2.joint && d1.motor < d2.motor)
            },
        forall|j: int, m: int|
            0 <= j < bp.joints@.len() && joint_in_range(bp, j) && 0 <= m
                < bp.joints@[j].motors@.len() ==> #[trigger] motor_has_dof(
                planned_dofs(bp, bp.joints@.len()),
                j,
                m,
            ),
{
    lemma_planned_dofs_drive_motors(bp, bp.joints@.len());
    lemma_planned_dofs_ordered(bp, bp.joints@.len());
    lemma_planned_dofs_cover(bp, bp.joints@.len());
}

/// Every degree of freedom of the plan belongs to a built joint, names an
/// existing motor of it, and both of its links exist.
pub proof fn lemma_plan_dofs_reference_links(bp: CreatureBlueprint)
    ensures
        forall|k: int|
            0 <= k < planned_dofs(bp, bp.joints@.len()).len() ==> {
                let d = #[trigger] planned_dofs(bp, bp.joints@.len())[k];
                &&& joint_in_range(bp, d.joint as int)
                &&& d.motor < bp.joints@[d.joint as int].motors@.len()
                &&& d == dof_of(bp, d.joint as int, d.motor as int)
                &&& d.parent_link < bp.links@.len()
                &&& d.child_link < bp.links@.len()
            },
{
    lemma_planned_dofs_valid(bp, bp.joints@.len());
}

/// The genome size announced for a blueprint (from its observation size,
/// hidden width and action size) is the genome size a creature built from
/// it expects (from the same observation size and hidden width and the
/// creature's own number of degrees of freedom) exactly when the two action
/// sizes agree: a genome of the announced size is accepted by the creature's
/// controller exactly when no motor was lost with a skipped joint.
pub proof fn lemma_announced_genome_fits_creature(bp: CreatureBlueprint)
    ensures
        genome_len_spec(
            bp.spec_observation_size() as int,
            bp.hidden_size as int,
            planned_dofs(bp, bp.joints@.len()).len() as int,
        ) == bp.spec_genome_size() <==> planned_dofs(bp, bp.joints@.len()).len()
            == bp.spec_action_size(),
        all_joints_in_range(bp) ==> genome_len_spec(
            bp.spec_observation_size() as int,
            bp.hidden_size as int,
            planned_dofs(bp, bp.joints@.len()).len() as int,
        ) == bp.spec_genome_size(),
{
    lemma_creature_action_size(bp);
    let i: int = bp.spec_observation_size() as int;
    let h: int = bp.hidden_size as int;
    let o1: int = planned_dofs(bp, bp.joints@.len()).len() as int;
    let o2: int = bp.spec_action_size() as int;
    assert(genome_len_spec(i, h, o1) == genome_len_spec(i, h, o2) <==> o1 == o2) by (nonlinear_arith)
        requires
            0 <= h,
            genome_len_spec(i, h, o1) == h * i + h + o1 * h + o1,
            genome_len_spec(i, h, o2) == h * i + h + o2 * h + o2,
    ;
}


proof fn lemma_joint_lists(bp: CreatureBlueprint, n: nat)
    requires
        n <= bp.joints@.len(),
    ensures
        built_joints(bp, n).len() + skipped_joints(bp, n).len() == n,
        forall|j: int|
            0 <= j < n ==> (built_joints(bp, n).contains(j as usize) <==> joint_in_range(bp, j)),
        forall|j: int|
            0 <= j < n ==> (skipped_joints(bp, n).contains(j as usize) <==> !joint_in_range(bp, j)),
        forall|k: int| 0 <= k < built_joints(bp, n).len() ==> built_joints(bp, n)[k] < n,
        forall|k: int| 0 <= k < skipped_joints(bp, n).len() ==> skipped_joints(bp, n)[k] < n,
        forall|k1: int, k2: int|
            0 <= k1 < k2 < built_joints(bp, n).len() ==> #[trigger] built_joints(bp, n)[k1]
                < #[trigger] built_joints(bp, n)[k2],
        forall|k1: int, k2: int|
            0 <= k1 < k2 < skipped_joints(bp, n).len() ==> #[trigger] skipped_joints(bp, n)[k1]
                < #[trigger] skipped_joints(bp, n)[k2],
    decreases n,
{
    if n > 0 {
        lemma_joint_lists(bp, (n - 1) as nat);
        let b = built_joints(bp, (n - 1) as nat);
        let s = skipped_joints(bp, (n - 1) as nat);
        assert(bp.joints.len() == bp.joints@.len());
        let last: usize = (n - 1) as usize;
        assert(last as int == n - 1);
        assert forall|j: int| 0 <= j < n implies (built_joints(bp, n).contains(j as usize)
            <==> joint_in_range(bp, j)) by {
            if joint_in_range(bp, n - 1) {
                assert(built_joints(bp, n) == b.push(last));
                if j < n - 1 {
                    if b.push(last).contains(j as usize) {
                        let k = choose|k: int| 0 <= k < b.push(last).len() && b.push(last)[k] == j as usize;
                        if k == b.len() {
                            assert(j as usize == last);
                        } else {
                            assert(b[k] == j as usize);
                        }
                    }
                    if b.contains(j as usize) {
                        let k = choose|k: int| 0 <= k < b.len() && b[k] == j as usize;
                        assert(b.push(last)[k] == j as usize);
                    }
                } else {
                    assert(b.push(last)[b.len() as int] == last);
                }
            } else {
                assert(built_joints(bp, n) == b);
                if j == n - 1 && b.contains(j as usize) {
                    let k = choose|k: int| 0 <= k < b.len() && b[k] == j as usize;
                    assert(b[k] < n - 1);
                }
            }
        }
        assert forall|j: int| 0 <= j < n implies (skipped_joints(bp, n).contains(j as usize)
            <==> !joint_in_range(bp, j)) by {
            if !joint_in_range(bp, n - 1) {
                assert(skipped_joints(bp, n) == s.push(last));
                if j < n - 1 {
                    if s.push(last).contains(j as usize) {
                        let k = choose|k: int| 0 <= k < s.push(last).len() && s.push(last)[k] == j as usize;
                        if k == s.len() {
                            assert(j as usize == last);
                        } else {
                            assert(s[k] == j as usize);
                        }
                    }
                    if s.contains(j as usize) {
                        let k = choose|k: int| 0 <= k < s.len() && s[k] == j as usize;
                        assert(s.push(last)[k] == j as usize);
                    }
                } else {
                    assert(s.push(last)[s.len() as int] == last);
                }
            } else {
                assert(skipped_joints(bp, n) == s);
                if j == n - 1 && s.contains(j as usize) {
                    let k = choose|k: int| 0 <= k < s.len() && s[k] == j as usize;
                    assert(s[k] < n - 1);
                }
            }
        }
    }
}

/// Every joint of the blueprint is either built or skipped, never both: a
/// joint is built exactly when both of its links exist.
pub proof fn lemma_plan_partitions_joints(bp: CreatureBlueprint)
    ensures
        built_joints(bp, bp.joints@.len()).len() + skipped_joints(bp, bp.joints@.len()).len()
            == bp.joints@.len(),
        forall|j: int|
            0 <= j < bp.joints@.len() ==> (built_joints(bp, bp.joints@.len()).contains(j as usize)
                <==> joint_in_range(bp, j)),
        forall|j: int|
            0 <= j < bp.joints@.len() ==> (skipped_joints(bp, bp.joints@.len()).contains(
                j as usize,
            ) <==> !joint_in_range(bp, j)),
        forall|k1: int, k2: int|
            0 <= k1 < k2 < built_joints(bp, bp.joints@.len()).len() ==> #[trigger] built_joints(
                bp,
                bp.joints@.len(),
            )[k1] < #[trigger] built_joints(bp, bp.joints@.len())[k2],
        forall|k1: int, k2: int|
            0 <= k1 < k2 < skipped_joints(bp, bp.joints@.len()).len() ==> #[trigger] skipped_joints(
                bp,
                bp.joints@.len(),
            )[k1] < #[trigger] skipped_joints(bp, bp.joints@.len())[k2],
{
    lemma_joint_lists(bp, bp.joints@.len());
}

/// A creature senses 3 + 2 values per degree of freedom + 1 per link; this
/// is the observation size announced by its blueprint exactly when no motor
/// was lost with a skipped joint, in particular when every joint connects
/// two links.
pub proof fn lemma_sensed_length_matches_observation_size(bp: CreatureBlueprint)
    ensures
        3 + 2 * planned_dofs(bp, bp.joints@.len()).len() + bp.links@.len()
            == bp.spec_observation_size() <==> planned_dofs(bp, bp.joints@.len()).len()
            == bp.spec_action_size(),
        all_joints_in_range(bp) ==> 3 + 2 * planned_dofs(bp, bp.joints@.len()).len()
            + bp.links@.len() == bp.spec_observation_size(),
{
    lemma_creature_action_size(bp);
}


/// The observation vector fed to the controller: the gravity direction in
/// the root link's frame, then the joint angle and angular velocity of each
/// degree of freedom in order, then the contact force on each link.
pub open spec fn observation_layout<T>(gravity: (T, T, T), readings: Seq<(T, T)>, contacts: Seq<T>) -> Seq<T> {
    seq![gravity.0, gravity.1, gravity.2] + Seq::new(
        2 * readings.len(),
        |k: int|
            if k % 2 == 0 {
                readings[k / 2].0
            } else {
                readings[k / 2].1
            },
    ) + contacts
}

proof fn lemma_observation_slots<T>(gravity: (T, T, T), readings: Seq<(T, T)>, contacts: Seq<T>)
    ensures
        forall|k: int|
            0 <= k < readings.len() ==> observation_layout(gravity, readings, contacts)[3 + 2 * k]
                == (#[trigger] readings[k]).0 && observation_layout(gravity, readings, contacts)[4
                + 2 * k] == readings[k].1,
{
    let obs = observation_layout(gravity, readings, contacts);
    let pairs = Seq::new(
        2 * readings.len(),
        |k: int|
            if k % 2 == 0 {
                readings[k / 2].0
            } else {
                readings[k / 2].1
            },
    );
    assert(obs == seq![gravity.0, gravity.1, gravity.2] + pairs + contacts);
    assert forall|k: int| 0 <= k < readings.len() implies obs[3 + 2 * k] == (
    #[trigger] readings[k]).0 && obs[4 + 2 * k] == readings[k].1 by {
        assert(obs[3 + 2 * k] == pairs[2 * k]);
        assert(obs[4 + 2 * k] == pairs[2 * k + 1]);
        assert((2 * k) / 2 == k);
        assert((2 * k + 1) / 2 == k);
        assert((2 * k + 1) % 2 == 1);
    }
}

/// Lays out a creature's sensor readings as the controller's observation:
/// slots `0..3` hold the gravity direction, slots `3 + 2 * k` and
/// `4 + 2 * k` the angle and angular velocity of degree of freedom `k`, and
/// the last slots the contact force of each link.
pub fn observation_from_readings<T: Copy>(gravity: (T, T, T), readings: &Vec<(T, T)>, contacts: &Vec<T>) -> (obs: Vec<T>)
    ensures
        obs@ == observation_layout(gravity, readings@, contacts@),
        obs@.len() == 3 + 2 * readings@.len() + contacts@.len(),
        obs@[0] == gravity.0 && obs@[1] == gravity.1 && obs@[2] == gravity.2,
        forall|k: int|
            0 <= k < readings@.len() ==> obs@[3 + 2 * k] == (#[trigger] readings@[k]).0 && obs@[4
                + 2 * k] == readings@[k].1,
        forall|l: int|
            0 <= l < contacts@.len() ==> obs@[3 + 2 * readings@.len() + l] == #[trigger] contacts@[l],
{
    let ghost pairs = Seq::new(
        2 * readings@.len(),
        |k: int|
            if k % 2 == 0 {
                readings@[k / 2].0
            } else {
                readings@[k / 2].1
            },
    );
    let mut obs: Vec<T> = Vec::new();
    obs.push(gravity.0);
    obs.push(gravity.1);
    obs.push(gravity.2);
    let mut k: usize = 0;
    while k < readings.len()
        invariant
            k <= readings@.len(),
            pairs.len() == 2 * readings@.len(),
            pairs == Seq::new(
                2 * readings@.len(),
                |k: int|
                    if k % 2 == 0 {
                        readings@[k / 2].0
                    } else {
                        readings@[k / 2].1
                    },
            ),
            obs@ == seq![gravity.0, gravity.1, gravity.2] + pairs.take(2 * k),
        decreases readings@.len() - k,
    {
        obs.push(readings[k].0);
        obs.push(readings[k].1);
        assert(pairs[2 * k as int] == readings@[k as int].0);
        assert(pairs[2 * k + 1] == readings@[k as int].1);
        assert(pairs.take(2 * (k + 1)) =~= pairs.take(2 * k).push(readings@[k as int].0).push(
            readings@[k as int].1,
        ));
        k = k + 1;
    }
    let ghost prefix = obs@;
    assert(pairs.take(2 * readings@.len() as int) =~= pairs);
    let mut l: usize = 0;
    while l < contacts.len()
        invariant
            l <= contacts@.len(),
            obs@ == prefix + contacts@.take(l as int),
        decreases contacts@.len() - l,
    {
        obs.push(contacts[l]);
        assert(contacts@.take(l + 1) =~= contacts@.take(l as int).push(contacts@[l as int]));
        l = l + 1;
    }
    assert(contacts@.take(contacts@.len() as int) =~= contacts@);
    assert(obs@ =~= observation_layout(gravity, readings@, contacts@));
    proof {
        lemma_observation_slots(gravity, readings@, contacts@);
    }
    obs
}

} // verus!
