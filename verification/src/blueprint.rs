//! Body plan of a creature: its links (rigid bodies) and the joints between
//! them, with the motors that drive each joint. This is the part of a
//! creature description that fixes its topology and the sizes of its
//! controller; shapes, anchors, forces and colours belong to the physics
//! and rendering layers.

use vstd::prelude::*;

use crate::network::genome_len_spec;

verus! {

/// Which local rotational axis a motor drives.
#[derive(Clone, Copy, PartialEq, Eq, Structural, Debug)]
pub enum MotorAxis {
    AngX,
    AngY,
    AngZ,
}

/// How two links are connected. A revolute joint turns about one axis and
/// is always driven about its joint-frame X axis; a spherical joint may be
/// driven about any of its three axes; a fixed joint does not move.
#[derive(Clone, Copy, PartialEq, Eq, Structural, Debug)]
pub enum JointKind {
    Revolute,
    Spherical,
    Fixed,
}

/// A single controllable degree of freedom on a joint.
#[derive(Clone, Copy, PartialEq, Eq, Structural, Debug)]
pub struct MotorSpec {
    pub axis: MotorAxis,
}

/// A joint between link `parent` and link `child` (indices into the
/// blueprint's links), with its controllable degrees of freedom.
#[derive(Clone, Debug)]
pub struct JointSpec {
    pub parent: usize,
    pub child: usize,
    pub kind: JointKind,
    pub motors: Vec<MotorSpec>,
}

/// One rigid body of the creature.
#[derive(Clone, Debug)]
pub struct LinkSpec {
    pub label: String,
}

/// A creature's body plan. Link 0 is the root (torso).
#[derive(Clone, Debug)]
pub struct CreatureBlueprint {
    pub links: Vec<LinkSpec>,
    pub joints: Vec<JointSpec>,
    /// Width of the controller's hidden layer.
    pub hidden_size: usize,
}

/// Hidden-layer width used when a blueprint does not give one.
pub fn default_hidden() -> (n: usize)
    ensures
        n == 16,
{
    16
}

/// Number of motors over the given joints.
pub open spec fn total_motors(joints: Seq<JointSpec>) -> nat
    decreases joints.len(),
{
    if joints.len() == 0 {
        0
    } else {
        total_motors(joints.drop_last()) + joints.last().motors@.len()
    }
}

impl CreatureBlueprint {
    /// One controllable value for every motor of every joint.
    pub open spec fn spec_action_size(&self) -> nat {
        total_motors(self.joints@)
    }

    /// 3 (gravity direction) + 2 per motor (angle, angular velocity) + 1 per
    /// link (contact force).
    pub open spec fn spec_observation_size(&self) -> nat {
        3 + 2 * self.spec_action_size() + self.links@.len()
    }

    /// Number of genome entries for this creature's controller.
    pub open spec fn spec_genome_size(&self) -> int {
        genome_len_spec(
            self.spec_observation_size() as int,
            self.hidden_size as int,
            self.spec_action_size() as int,
        )
    }

    /// The controller's sizes (action, observation and genome sizes) are
    /// representable as `usize`.
    pub open spec fn sizes_fit_spec(&self) -> bool {
        &&& self.spec_observation_size() <= usize::MAX
        &&& 0 <= self.spec_genome_size() <= usize::MAX
    }

    /// One controllable value for every degree of freedom of all joints.
    pub fn action_size(&self) -> (n: usize)
        requires
            self.spec_action_size() <= usize::MAX,
        ensures
            n == self.spec_action_size(),
    {
        let mut total: usize = 0;
        let mut j: usize = 0;
        while j < self.joints.len()
            invariant
                j <= self.joints@.len(),
                total_motors(self.joints@) <= usize::MAX,
                total == total_motors(self.joints@.take(j as int)),
            decreases self.joints@.len() - j,
        {
            proof {
                assert(self.joints@.take(j + 1).drop_last() =~= self.joints@.take(j as int));
                lemma_total_motors_prefix(self.joints@, j + 1);
            }
            total = total + self.joints[j].motors.len();
            j = j + 1;
        }
        assert(self.joints@.take(self.joints@.len() as int) =~= self.joints@);
        total
    }

    /// Length of the observation vector fed to the controller:
    ///   3 (gravity direction relative to the creature)
    /// + 2 per motor DOF (joint angle and angular velocity)
    /// + 1 per link (contact force magnitude on that link).
    pub fn observation_size(&self) -> (n: usize)
        requires
            self.spec_observation_size() <= usize::MAX,
        ensures
            n == self.spec_observation_size(),
    {
        let actions: usize = self.action_size();
        3 + 2 * actions + self.links.len()
    }

    /// Whether the controller's sizes fit in a `usize`; the size functions
    /// may be called exactly when this holds.
    pub fn sizes_fit(&self) -> (fit: bool)
        ensures
            fit == self.sizes_fit_spec(),
    {
        let mut total: usize = 0;
        let mut j: usize = 0;
        while j < self.joints.len()
            invariant
                j <= self.joints@.len(),
                total == total_motors(self.joints@.take(j as int)),
            decreases self.joints@.len() - j,
        {
            assert(self.joints@.take(j + 1).drop_last() =~= self.joints@.take(j as int));
            match total.checked_add(self.joints[j].motors.len()) {
                Some(t) => {
                    total = t;
                },
                None => {
                    proof {
                        lemma_total_motors_prefix(self.joints@, j + 1);
                        assert(self.joints@.take(self.joints@.len() as int) =~= self.joints@);
                    }
                    return false;
                },
            }
            j = j + 1;
        }
        assert(self.joints@.take(self.joints@.len() as int) =~= self.joints@);
        let observations: usize = match total.checked_mul(2) {
            Some(d) => match d.checked_add(3) {
                Some(e) => match e.checked_add(self.links.len()) {
                    Some(o) => o,
                    None => return false,
                },
                None => return false,
            },
            None => return false,
        };
        let hidden: usize = self.hidden_size;
        proof {
            lemma_genome_len_monotone(observations as int, hidden as int, total as int);
        }
        let hi: usize = match hidden.checked_mul(observations) {
            Some(v) => v,
            None => return false,
        };
        let oh: usize = match total.checked_mul(hidden) {
            Some(v) => v,
            None => return false,
        };
        let s1: usize = match hi.checked_add(hidden) {
            Some(v) => v,
            None => return false,
        };
        let s2: usize = match s1.checked_add(oh) {
            Some(v) => v,
            None => return false,
        };
        match s2.checked_add(total) {
            Some(_) => true,
            None => false,
        }
    }
}

proof fn lemma_total_motors_prefix(joints: Seq<JointSpec>, n: int)
    requires
        0 <= n <= joints.len(),
    ensures
        total_motors(joints.take(n)) <= total_motors(joints),
    decreases joints.len(),
{
    if n < joints.len() {
        assert(joints.drop_last().take(n) =~= joints.take(n));
        lemma_total_motors_prefix(joints.drop_last(), n);
    } else {
        assert(joints.take(n) =~= joints);
    }
}

proof fn lemma_genome_len_monotone(i: int, h: int, o: int)
    requires
        0 <= i,
        0 <= h,
        0 <= o,
    ensures
        0 <= h * i,
        0 <= o * h,
        genome_len_spec(i, h, o) >= 0,
{
    assert(0 <= h * i) by (nonlinear_arith)
        requires
            0 <= i,
            0 <= h,
    ;
    assert(0 <= o * h) by (nonlinear_arith)
        requires
            0 <= o,
            0 <= h,
    ;
}

} // verus!
