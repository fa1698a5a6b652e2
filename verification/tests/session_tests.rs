use weld_digest::geometry::{frame_camera_on, CameraPose, Point3, Vec3};
use weld_digest::model::Joint;
use weld_digest::session::{fly_to_component, fly_to_joint, SessionState};
use weld_digest::model::Component;

fn up_y() -> Vec3 {
    Vec3 { x: 0, y: 1_000_000, z: 0 }
}

#[test]
fn frame_camera_on_example_point() {
    // Framing [1, 2, 3] world units yields a camera at [51, 2, 3] looking
    // back at [1, 2, 3].
    let target = Point3 { x: 1_000_000, y: 2_000_000, z: 3_000_000 };
    let pose = frame_camera_on(target, up_y());
    assert_eq!(pose.position, Point3 { x: 51_000_000, y: 2_000_000, z: 3_000_000 });
    assert_eq!(pose.target, target);
    assert_eq!(pose.up, up_y());
    // The forward vector runs exactly from the position to the target.
    assert_eq!(pose.target.x - pose.position.x, -50_000_000);
    assert_eq!(pose.target.y - pose.position.y, 0);
    assert_eq!(pose.target.z - pose.position.z, 0);
}

#[test]
fn frame_camera_on_is_deterministic() {
    let target = Point3 { x: -7_250_000, y: 0, z: 123 };
    let a: CameraPose = frame_camera_on(target, up_y());
    let b: CameraPose = frame_camera_on(target, up_y());
    assert_eq!(a, b);
}

#[test]
fn joint_without_center_never_flies() {
    let joint = Joint {
        joint_number: "101".to_string(),
        joint_design: "Butt".to_string(),
        center: None,
        members: vec![],
    };
    assert_eq!(fly_to_joint(&joint, up_y()), None);
}

#[test]
fn joint_with_center_flies_to_framing_pose() {
    let joint = Joint {
        joint_number: "101".to_string(),
        joint_design: "Butt".to_string(),
        center: Some(Point3 { x: 1_000_000, y: 2_000_000, z: 3_000_000 }),
        members: vec![],
    };
    let pose = fly_to_joint(&joint, up_y()).unwrap();
    assert_eq!(pose.position, Point3 { x: 51_000_000, y: 2_000_000, z: 3_000_000 });
    assert_eq!(pose.target, Point3 { x: 1_000_000, y: 2_000_000, z: 3_000_000 });
}

#[test]
fn component_without_location_never_flies() {
    let component = Component {
        design_id: "D".to_string(),
        part_number: "P".to_string(),
        description: "d".to_string(),
        geom_path: None,
        loc: None,
        faces: None,
    };
    assert_eq!(fly_to_component(&component, up_y()), None);
}

#[test]
fn component_with_location_flies_to_framing_pose() {
    let component = Component {
        design_id: "D".to_string(),
        part_number: "P".to_string(),
        description: "d".to_string(),
        geom_path: None,
        loc: Some(Point3 { x: 0, y: 0, z: -4_000_000 }),
        faces: None,
    };
    let pose = fly_to_component(&component, up_y()).unwrap();
    assert_eq!(pose.position, Point3 { x: 50_000_000, y: 0, z: -4_000_000 });
    assert_eq!(pose.target, Point3 { x: 0, y: 0, z: -4_000_000 });
}

#[test]
fn selections_are_independent_and_cleared_together() {
    let mut s = SessionState::new();
    assert_eq!(s.selected_joint, None);
    assert_eq!(s.selected_component, None);

    // Selecting joint A then component B leaves both active at once.
    s.select_joint("J1".to_string());
    s.select_component("C1".to_string());
    assert_eq!(s.selected_joint, Some("J1".to_string()));
    assert_eq!(s.selected_component, Some("C1".to_string()));

    // Clearing everything unsets both.
    s.clear_all_selections();
    assert_eq!(s.selected_joint, None);
    assert_eq!(s.selected_component, None);

    // Re-selecting the joint does not require re-selecting the component.
    s.select_joint("J1".to_string());
    assert_eq!(s.selected_joint, Some("J1".to_string()));
    assert_eq!(s.selected_component, None);
}

#[test]
fn individual_clears_touch_only_their_slot() {
    let mut s = SessionState::new();
    s.select_joint("J".to_string());
    s.select_component("C".to_string());
    s.clear_joint_selection();
    assert_eq!(s.selected_joint, None);
    assert_eq!(s.selected_component, Some("C".to_string()));
    s.select_joint("J2".to_string());
    s.clear_component_selection();
    assert_eq!(s.selected_joint, Some("J2".to_string()));
    assert_eq!(s.selected_component, None);
}

#[test]
fn default_preferences_are_opaque_and_within_range() {
    let s = SessionState::new();
    assert_eq!(s.prefs.active_opacity, 100);
    assert_eq!(s.prefs.inactive_opacity, 100);
    assert_eq!(s.prefs.locator_sphere_opacity, 100);
    assert_eq!(
        (s.prefs.active_color.red, s.prefs.active_color.green, s.prefs.active_color.blue),
        (51, 204, 51)
    );
}
