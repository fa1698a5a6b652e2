//! Transient UI-session state: selections, visualization preferences, and
//! the fly-to operations that turn a selected entity's anchor into a
//! camera pose.

use vstd::prelude::*;

use crate::geometry::CameraPose;
use crate::geometry::Vec3;
use crate::geometry::frame_camera_on;
use crate::geometry::spec_frame;
use crate::model::Component;
use crate::model::Joint;

verus! {

/// An RGB color, each channel 0..=255.
#[derive(Clone, Copy, Debug, PartialEq, Eq, Structural)]
pub struct Rgb {
    pub red: u8,
    pub green: u8,
    pub blue: u8,
}

/// Per-category rendering preferences.  Colors are RGB triples; opacities
/// are integer percentages.
#[derive(Clone, Copy, Debug, PartialEq, Eq, Structural)]
pub struct VisPrefs {
    pub active_color: Rgb,
    pub inactive_color: Rgb,
    pub weld_center_color: Rgb,
    pub pipe_face_center_color: Rgb,
    pub active_opacity: i32,
    pub inactive_opacity: i32,
    pub locator_sphere_opacity: i32,
}

impl VisPrefs {
    /// Opacities are percentages: 0..=100.
    pub open spec fn wf(self) -> bool {
        &&& 0 <= self.active_opacity <= 100
        &&& 0 <= self.inactive_opacity <= 100
        &&& 0 <= self.locator_sphere_opacity <= 100
    }
}

/// The preferences a fresh session starts with: muted green for the
/// active component, dark grey for inactive ones, blue weld-center and
/// red pipe-face markers, everything fully opaque.
pub open spec fn spec_default_prefs() -> VisPrefs {
    VisPrefs {
        active_color: Rgb { red: 51, green: 204, blue: 51 },
        inactive_color: Rgb { red: 51, green: 51, blue: 51 },
        weld_center_color: Rgb { red: 51, green: 51, blue: 153 },
        pipe_face_center_color: Rgb { red: 153, green: 51, blue: 51 },
        active_opacity: 100,
        inactive_opacity: 100,
        locator_sphere_opacity: 100,
    }
}

/// Build the default preferences.
pub fn default_prefs() -> (p: VisPrefs)
    ensures
        p == spec_default_prefs(),
        p.wf(),
{
    VisPrefs {
        active_color: Rgb { red: 51, green: 204, blue: 51 },
        inactive_color: Rgb { red: 51, green: 51, blue: 51 },
        weld_center_color: Rgb { red: 51, green: 51, blue: 153 },
        pipe_face_center_color: Rgb { red: 153, green: 51, blue: 51 },
        active_opacity: 100,
        inactive_opacity: 100,
        locator_sphere_opacity: 100,
    }
}

/// Session-scoped UI state: at most one selected joint identifier and at
/// most one selected component identifier, independent of each other,
/// plus the visualization preferences.
pub struct SessionState {
    pub selected_joint: Option<String>,
    pub selected_component: Option<String>,
    pub prefs: VisPrefs,
}

/// Effect of selecting a joint: only the joint slot changes.
pub open spec fn spec_select_joint(s: SessionState, id: String) -> SessionState {
    SessionState { selected_joint: Some(id), ..s }
}

/// Effect of selecting a component: only the component slot changes.
pub open spec fn spec_select_component(s: SessionState, id: String) -> SessionState {
    SessionState { selected_component: Some(id), ..s }
}

/// Effect of clearing both selections: preferences are untouched.
pub open spec fn spec_clear_all(s: SessionState) -> SessionState {
    SessionState { selected_joint: None, selected_component: None, ..s }
}

impl SessionState {
    /// A fresh session: nothing selected, default preferences.
    pub fn new() -> (s: SessionState)
        ensures
            s.selected_joint is None,
            s.selected_component is None,
            s.prefs == spec_default_prefs(),
            s.prefs.wf(),
    {
        SessionState {
            selected_joint: None,
            selected_component: None,
            prefs: default_prefs(),
        }
    }

    /// Select a joint; the component selection and preferences are left
    /// untouched.
    pub fn select_joint(&mut self, id: String)
        ensures
            *final(self) == spec_select_joint(*old(self), id),
            final(self).selected_joint == Some(id),
            final(self).selected_component == old(self).selected_component,
            final(self).prefs == old(self).prefs,
    {
        self.selected_joint = Some(id);
    }

    /// Clear the joint selection; the component selection and preferences
    /// are left untouched.
    pub fn clear_joint_selection(&mut self)
        ensures
            final(self).selected_joint is None,
            final(self).selected_component == old(self).selected_component,
            final(self).prefs == old(self).prefs,
    {
        self.selected_joint = None;
    }

    /// Select a component; the joint selection and preferences are left
    /// untouched.
    pub fn select_component(&mut self, id: String)
        ensures
            *final(self) == spec_select_component(*old(self), id),
            final(self).selected_component == Some(id),
            final(self).selected_joint == old(self).selected_joint,
            final(self).prefs == old(self).prefs,
    {
        self.selected_component = Some(id);
    }

    /// Clear the component selection; the joint selection and preferences
    /// are left untouched.
    pub fn clear_component_selection(&mut self)
        ensures
            final(self).selected_component is None,
            final(self).selected_joint == old(self).selected_joint,
            final(self).prefs == old(self).prefs,
    {
        self.selected_component = None;
    }

    /// Clear both selections; preferences are left untouched.
    pub fn clear_all_selections(&mut self)
        ensures
            *final(self) == spec_clear_all(*old(self)),
            final(self).selected_joint is None,
            final(self).selected_component is None,
            final(self).prefs == old(self).prefs,
    {
        self.selected_joint = None;
        self.selected_component = None;
    }
}

/// Selections are independent: selecting joint `a` and then component `b`
/// leaves both active at once; clearing everything unsets both; selecting
/// `a` again after the clear re-selects the joint without requiring the
/// component to be re-selected.
pub proof fn lemma_selection_independence(s: SessionState, a: String, b: String)
    ensures
        ({
            let both = spec_select_component(spec_select_joint(s, a), b);
            &&& both.selected_joint == Some(a)
            &&& both.selected_component == Some(b)
            &&& spec_clear_all(both).selected_joint is None
            &&& spec_clear_all(both).selected_component is None
            &&& spec_select_joint(spec_clear_all(both), a).selected_joint == Some(a)
            &&& spec_select_joint(spec_clear_all(both), a).selected_component is None
            &&& spec_select_joint(spec_clear_all(both), a).prefs == s.prefs
        }),
{
}

/// Fly the camera to a joint's anchor.  A joint with no center never
/// yields a pose; a joint with a center yields exactly the framing pose
/// for that center.
pub fn fly_to_joint(joint: &Joint, up: Vec3) -> (r: Option<CameraPose>)
    requires
        joint.wf(),
    ensures
        r is Some <==> joint.center is Some,
        joint.center matches Some(c) ==> r == Some(spec_frame(c, up)),
{
    match joint.center {
        Some(c) => {
            proof {
                crate::geometry::lemma_bounded_point_frames(c);
            }
            Some(frame_camera_on(c, up))
        },
        None => None,
    }
}

/// Fly the camera to a component's anchor.  A component with no location
/// never yields a pose; one with a location yields exactly the framing
/// pose for that location.
pub fn fly_to_component(component: &Component, up: Vec3) -> (r: Option<CameraPose>)
    requires
        component.wf(),
    ensures
        r is Some <==> component.loc is Some,
        component.loc matches Some(c) ==> r == Some(spec_frame(c, up)),
{
    match component.loc {
        Some(c) => {
            proof {
                crate::geometry::lemma_bounded_point_frames(c);
            }
            Some(frame_camera_on(c, up))
        },
        None => None,
    }
}

} // verus!
