use creature_simulator::blueprint::{
    default_hidden, CreatureBlueprint, JointKind, JointSpec, LinkSpec, MotorAxis, MotorSpec,
};
use creature_simulator::creature::{observation_from_readings, plan_creature, DofPlan, SenseAxis};
use creature_simulator::network::NeuralNet;

const CREATURE_JSON: &str = r#"{
    "hidden_size": 8,
    "links": [
        { "label": "torso", "colliders": [ { "shape": "cuboid", "half_extents": [1.5, 0.4, 0.8] } ] },
        { "label": "leg", "translation": [1.2, -0.9, 0.0],
          "colliders": [ { "shape": "cuboid", "half_extents": [0.2, 0.8, 0.2], "translation": [0.0, 0.0, 0.0] } ] }
    ],
    "joints": [
        { "kind": "revolute", "axis": [0.0, 0.0, 1.0], "parent": 0, "child": 1,
          "parent_anchor": [1.2, -0.4, 0.0], "child_anchor": [0.0, 0.8, 0.0],
          "motors": [ { "axis": "ang_x", "max_force": 60.0 } ] }
    ]
}"#;

fn motor_axis(name: &str) -> MotorAxis {
    match name {
        "ang_x" => MotorAxis::AngX,
        "ang_y" => MotorAxis::AngY,
        "ang_z" => MotorAxis::AngZ,
        other => panic!("unknown motor axis {other}"),
    }
}

/// Reads the body plan out of a creature description in JSON.
fn body_plan(json: &str) -> CreatureBlueprint {
    let value: serde_json::Value = serde_json::from_str(json).expect("creature parses");
    let links = value["links"]
        .as_array()
        .expect("links")
        .iter()
        .map(|l| LinkSpec { label: l["label"].as_str().expect("label").to_string() })
        .collect();
    let joints = value["joints"]
        .as_array()
        .map(|joints| {
            joints
                .iter()
                .map(|j| JointSpec {
                    parent: j["parent"].as_u64().expect("parent") as usize,
                    child: j["child"].as_u64().expect("child") as usize,
                    kind: match j["kind"].as_str().expect("kind") {
                        "revolute" => JointKind::Revolute,
                        "spherical" => JointKind::Spherical,
                        _ => JointKind::Fixed,
                    },
                    motors: j["motors"]
                        .as_array()
                        .map(|ms| {
                            ms.iter()
                                .map(|m| MotorSpec { axis: motor_axis(m["axis"].as_str().expect("axis")) })
                                .collect()
                        })
                        .unwrap_or_default(),
                })
                .collect()
        })
        .unwrap_or_default();
    let hidden_size = value["hidden_size"].as_u64().map(|h| h as usize).unwrap_or_else(default_hidden);
    CreatureBlueprint { links, joints, hidden_size }
}

fn link(label: &str) -> LinkSpec {
    LinkSpec { label: label.to_string() }
}

fn joint(parent: usize, child: usize, kind: JointKind, axes: &[MotorAxis]) -> JointSpec {
    JointSpec { parent, child, kind, motors: axes.iter().map(|&axis| MotorSpec { axis }).collect() }
}

#[test]
fn parses_creature_and_reports_io_sizes() {
    let bp = body_plan(CREATURE_JSON);
    assert_eq!(bp.links.len(), 2);
    assert_eq!(bp.joints.len(), 1);
    assert_eq!(bp.action_size(), 1); // one motorized DOF
    // 3 (gravity) + 2 (angle+velocity per DOF) + 2 (links) = 7
    assert_eq!(bp.observation_size(), 7);
}

#[test]
fn default_hidden_width() {
    assert_eq!(default_hidden(), 16);
    let bp = body_plan(r#"{ "links": [ { "label": "torso" } ] }"#);
    assert_eq!(bp.hidden_size, 16);
    assert_eq!(bp.action_size(), 0);
    assert_eq!(bp.observation_size(), 4);
}

#[test]
fn sizes_count_every_motor_of_every_joint() {
    let bp = CreatureBlueprint {
        links: vec![link("torso"), link("arm"), link("hand")],
        joints: vec![
            joint(0, 1, JointKind::Spherical, &[MotorAxis::AngX, MotorAxis::AngZ]),
            joint(1, 2, JointKind::Fixed, &[]),
            joint(1, 2, JointKind::Revolute, &[MotorAxis::AngY]),
        ],
        hidden_size: 4,
    };
    assert_eq!(bp.action_size(), 3);
    assert_eq!(bp.observation_size(), 3 + 2 * 3 + 3);
    assert!(bp.sizes_fit());
}

#[test]
fn oversized_controller_does_not_fit() {
    let bp = CreatureBlueprint {
        links: vec![link("torso")],
        joints: vec![joint(0, 0, JointKind::Spherical, &[MotorAxis::AngX])],
        hidden_size: usize::MAX,
    };
    assert!(!bp.sizes_fit());
    let bp = CreatureBlueprint { hidden_size: 1 << 20, ..bp };
    assert!(bp.sizes_fit());
}

#[test]
fn plan_builds_joints_between_existing_links() {
    let bp = CreatureBlueprint {
        links: vec![link("torso"), link("leg")],
        joints: vec![
            joint(0, 1, JointKind::Revolute, &[MotorAxis::AngZ]),
            joint(0, 5, JointKind::Spherical, &[MotorAxis::AngY]),
            joint(1, 0, JointKind::Spherical, &[MotorAxis::AngY, MotorAxis::AngX]),
        ],
        hidden_size: 4,
    };
    let plan = plan_creature(&bp);
    assert_eq!(plan.built_joints, vec![0, 2]);
    assert_eq!(plan.skipped_joints, vec![1]);
    assert_eq!(
        plan.dofs,
        vec![
            DofPlan {
                joint: 0,
                motor: 0,
                drive_axis: MotorAxis::AngX,
                sense_axis: SenseAxis::JointAxis,
                parent_link: 0,
                child_link: 1,
            },
            DofPlan {
                joint: 2,
                motor: 0,
                drive_axis: MotorAxis::AngY,
                sense_axis: SenseAxis::Motor(MotorAxis::AngY),
                parent_link: 1,
                child_link: 0,
            },
            DofPlan {
                joint: 2,
                motor: 1,
                drive_axis: MotorAxis::AngX,
                sense_axis: SenseAxis::Motor(MotorAxis::AngX),
                parent_link: 1,
                child_link: 0,
            },
        ]
    );
}

#[test]
fn announced_genome_fits_a_creature_without_skipped_joints() {
    let bp = body_plan(CREATURE_JSON);
    let plan = plan_creature(&bp);
    assert_eq!(plan.dofs.len(), bp.action_size());
    let size = NeuralNet::<f32>::genome_len(bp.observation_size(), bp.hidden_size, bp.action_size());
    let genome = vec![0.0f32; size];
    let net = NeuralNet::from_genome(&genome, bp.observation_size(), bp.hidden_size, plan.dofs.len());
    assert!(net.is_ok());
}

#[test]
fn announced_genome_is_refused_when_a_motorized_joint_was_skipped() {
    let bp = CreatureBlueprint {
        links: vec![link("torso"), link("leg")],
        joints: vec![
            joint(0, 1, JointKind::Revolute, &[MotorAxis::AngX]),
            joint(0, 2, JointKind::Revolute, &[MotorAxis::AngX]),
        ],
        hidden_size: 8,
    };
    let plan = plan_creature(&bp);
    assert_eq!(plan.dofs.len(), 1);
    assert_eq!(bp.action_size(), 2);
    let size = NeuralNet::<f32>::genome_len(bp.observation_size(), bp.hidden_size, bp.action_size());
    let genome = vec![0.0f32; size];
    let net = NeuralNet::from_genome(&genome, bp.observation_size(), bp.hidden_size, plan.dofs.len());
    assert!(net.is_err());
}

#[test]
fn observation_layout_puts_joint_readings_after_gravity() {
    let obs = observation_from_readings((0.0f32, -1.0, 0.0), &vec![(0.25, 2.0), (0.5, -3.0)], &vec![7.0, 8.0, 9.0]);
    assert_eq!(obs, vec![0.0, -1.0, 0.0, 0.25, 2.0, 0.5, -3.0, 7.0, 8.0, 9.0]);
    // Angle of the first degree of freedom sits right after the three gravity slots.
    assert_eq!(obs[3], 0.25);
    let bare = observation_from_readings((1u8, 2, 3), &Vec::new(), &Vec::new());
    assert_eq!(bare, vec![1, 2, 3]);
}
