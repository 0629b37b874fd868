//! Decisions of the simulation viewer's event handler: what to do for each
//! window event, and how to react to the state of the surface when a frame
//! is acquired. The window system, the GPU and the renderer carry the
//! actions out.

use vstd::prelude::*;

verus! {

/// Life cycle of the viewer application.
#[derive(Clone, Copy, PartialEq, Eq, Structural, Debug)]
pub enum AppPhase {
    /// No window or renderer yet.
    Uninitialized,
    /// Window and GPU state are being created.
    Loading,
    /// The renderer is ready.
    Running,
}

/// The events of the window that the viewer reacts to.
#[derive(Clone, Copy, PartialEq, Eq, Structural, Debug)]
pub enum WindowInput {
    Resized,
    /// A key changed state; `escape` tells whether it is the Escape key.
    Key { escape: bool, pressed: bool },
    /// A mouse button changed state; `right` tells whether it is the right
    /// button.
    MouseButton { right: bool, pressed: bool },
    /// Raw mouse motion of the pointing device.
    MouseMotion,
    RedrawRequested,
    Occluded { occluded: bool },
    CloseRequested,
    /// Any other event.
    Other,
}

/// The outcome of acquiring the next surface texture.
#[derive(Clone, Copy, PartialEq, Eq, Structural, Debug)]
pub enum SurfaceStatus {
    Success,
    Timeout,
    Occluded,
    Suboptimal,
    Outdated,
    Validation,
    Lost,
}

/// One step of the viewer's reaction to an event.
#[derive(Clone, Copy, PartialEq, Eq, Structural, Debug)]
pub enum WindowAction {
    /// Resize the surface, depth buffer and camera aspect to the window.
    Resize,
    /// Turn mouse look on or off.
    SetLooking(bool),
    /// Grab the cursor (locked, or confined where locking is refused).
    GrabCursor,
    /// Release the cursor grab.
    ReleaseCursor,
    SetCursorVisible(bool),
    /// Pass the key change on to the camera controller.
    ForwardKey,
    /// Pass the mouse motion on to the camera controller.
    ForwardMouseMotion,
    /// Advance the camera and upload its uniform.
    UpdateScene,
    /// Acquire the next surface texture.
    AcquireFrame,
    /// Draw the scene into the acquired texture.
    RenderFrame,
    /// Notify the window and present the acquired texture.
    PresentFrame,
    /// Configure the surface again.
    ReconfigureSurface,
    /// Create the surface anew from the window.
    RemakeSurface,
    /// Report a surface problem on the console.
    Report(SurfaceStatus),
    RequestRedraw,
    /// Leave the event loop.
    Exit,
}

/// Whether a resumed application must build its window and renderer: only
/// the first time, while nothing exists yet.
pub fn resume_needs_renderer(phase: AppPhase) -> (build: bool)
    ensures
        build == (phase == AppPhase::Uninitialized),
{
    match phase {
        AppPhase::Uninitialized => true,
        _ => false,
    }
}

/// The actions for a window or device event. Before the renderer is
/// running every event is ignored.
pub open spec fn window_actions_spec(phase: AppPhase, input: WindowInput) -> Seq<WindowAction> {
    if phase != AppPhase::Running {
        Seq::empty()
    } else {
        match input {
            WindowInput::Resized => seq![WindowAction::Resize],
            WindowInput::Key { escape, pressed } => if escape && pressed {
                seq![
                    WindowAction::SetLooking(false),
                    WindowAction::ReleaseCursor,
                    WindowAction::SetCursorVisible(true),
                    WindowAction::ForwardKey,
                ]
            } else {
                seq![WindowAction::ForwardKey]
            },
            WindowInput::MouseButton { right, pressed } => if !right {
                Seq::empty()
            } else if pressed {
                seq![
                    WindowAction::SetLooking(true),
                    WindowAction::GrabCursor,
                    WindowAction::SetCursorVisible(false),
                ]
            } else {
                seq![
                    WindowAction::SetLooking(false),
                    WindowAction::ReleaseCursor,
                    WindowAction::SetCursorVisible(true),
                ]
            },
            WindowInput::MouseMotion => seq![WindowAction::ForwardMouseMotion],
            WindowInput::RedrawRequested => seq![WindowAction::UpdateScene, WindowAction::AcquireFrame],
            WindowInput::Occluded { occluded } => if occluded {
                Seq::empty()
            } else {
                seq![WindowAction::RequestRedraw]
            },
            WindowInput::CloseRequested => seq![WindowAction::Exit],
            WindowInput::Other => Seq::empty(),
        }
    }
}

/// The actions once the surface texture for a redraw was requested.
pub open spec fn frame_actions_spec(status: SurfaceStatus) -> Seq<WindowAction> {
    match status {
        SurfaceStatus::Success => seq![
            WindowAction::RenderFrame,
            WindowAction::PresentFrame,
            WindowAction::RequestRedraw,
        ],
        SurfaceStatus::Timeout | SurfaceStatus::Occluded => seq![WindowAction::RequestRedraw],
        SurfaceStatus::Suboptimal | SurfaceStatus::Outdated => seq![
            WindowAction::Report(status),
            WindowAction::ReconfigureSurface,
            WindowAction::RequestRedraw,
        ],
        SurfaceStatus::Lost => seq![
            WindowAction::Report(status),
            WindowAction::RemakeSurface,
            WindowAction::ReconfigureSurface,
            WindowAction::RequestRedraw,
        ],
        SurfaceStatus::Validation => Seq::empty(),
    }
}

/// What the viewer does for a window or device event: resize on resize;
/// Escape releases mouse look and is passed on like every key; the right
/// button holds mouse look, grabbing and hiding the cursor while held;
/// mouse motion goes to the camera; a redraw updates the scene and acquires
/// a frame; an uncovered window asks for a redraw; closing exits.
pub fn window_actions(phase: AppPhase, input: WindowInput) -> (actions: Vec<WindowAction>)
    ensures
        actions@ == window_actions_spec(phase, input),
        phase != AppPhase::Running ==> actions@.len() == 0,
        phase == AppPhase::Running && input is Key ==> actions@.len() > 0 && actions@.last()
            == WindowAction::ForwardKey,
{
    let mut actions: Vec<WindowAction> = Vec::new();
    match phase {
        AppPhase::Running => {},
        _ => {
            return actions;
        },
    }
    match input {
        WindowInput::Resized => {
            actions.push(WindowAction::Resize);
        },
        WindowInput::Key { escape, pressed } => {
            if escape && pressed {
                actions.push(WindowAction::SetLooking(false));
                actions.push(WindowAction::ReleaseCursor);
                actions.push(WindowAction::SetCursorVisible(true));
            }
            actions.push(WindowAction::ForwardKey);
        },
        WindowInput::MouseButton { right, pressed } => {
            if right {
                actions.push(WindowAction::SetLooking(pressed));
                if pressed {
                    actions.push(WindowAction::GrabCursor);
                    actions.push(WindowAction::SetCursorVisible(false));
                } else {
                    actions.push(WindowAction::ReleaseCursor);
                    actions.push(WindowAction::SetCursorVisible(true));
                }
            }
        },
        WindowInput::MouseMotion => {
            actions.push(WindowAction::ForwardMouseMotion);
        },
        WindowInput::RedrawRequested => {
            actions.push(WindowAction::UpdateScene);
            actions.push(WindowAction::AcquireFrame);
        },
        WindowInput::Occluded { occluded } => {
            if !occluded {
                actions.push(WindowAction::RequestRedraw);
            }
        },
        WindowInput::CloseRequested => {
            actions.push(WindowAction::Exit);
        },
        WindowInput::Other => {},
    }
    assert(actions@ =~= window_actions_spec(phase, input));
    actions
}

/// What the viewer does with the outcome of acquiring a frame: a frame is
/// rendered and presented; a timed-out or occluded surface is retried; a
/// suboptimal or outdated surface is reported and reconfigured; a lost
/// surface is reported, recreated and configured. Validation errors cannot
/// occur, since no error scope is registered.
pub fn frame_actions(status: SurfaceStatus) -> (actions: Vec<WindowAction>)
    requires
        status != SurfaceStatus::Validation,
    ensures
        actions@ == frame_actions_spec(status),
{
    let mut actions: Vec<WindowAction> = Vec::new();
    match status {
        SurfaceStatus::Success => {
            actions.push(WindowAction::RenderFrame);
            actions.push(WindowAction::PresentFrame);
        },
        SurfaceStatus::Timeout | SurfaceStatus::Occluded => {},
        SurfaceStatus::Suboptimal | SurfaceStatus::Outdated => {
            actions.push(WindowAction::Report(status));
            actions.push(WindowAction::ReconfigureSurface);
        },
        SurfaceStatus::Lost => {
            actions.push(WindowAction::Report(status));
            actions.push(WindowAction::RemakeSurface);
            actions.push(WindowAction::ReconfigureSurface);
        },
        SurfaceStatus::Validation => {},
    }
    actions.push(WindowAction::RequestRedraw);
    assert(actions@ =~= frame_actions_spec(status));
    actions
}

/// Mouse look and the cursor agree: whenever an event turns mouse look on
/// or off, the same event hides the cursor (look on) or shows it (look off),
/// and grabs or releases it accordingly.
pub proof fn lemma_cursor_follows_looking(phase: AppPhase, input: WindowInput, looking: bool)
    requires
        window_actions_spec(phase, input).contains(WindowAction::SetLooking(looking)),
    ensures
        window_actions_spec(phase, input).contains(WindowAction::SetCursorVisible(!looking)),
        looking ==> window_actions_spec(phase, input).contains(WindowAction::GrabCursor),
        !looking ==> window_actions_spec(phase, input).contains(WindowAction::ReleaseCursor),
{
    let a = window_actions_spec(phase, input);
    assert(phase == AppPhase::Running);
    match input {
        WindowInput::Key { escape, pressed } => {
            assert(escape && pressed);
            assert(a[0] == WindowAction::SetLooking(false));
            assert(a[1] == WindowAction::ReleaseCursor);
            assert(a[2] == WindowAction::SetCursorVisible(true));
            if looking {
                let k = choose|k: int| 0 <= k < a.len() && a[k] == WindowAction::SetLooking(looking);
                assert(a[k] != WindowAction::SetLooking(true));
            }
        },
        WindowInput::MouseButton { right, pressed } => {
            let k = choose|k: int| 0 <= k < a.len() && a[k] == WindowAction::SetLooking(looking);
            if pressed {
                assert(a[0] == WindowAction::SetLooking(true));
                assert(a[1] == WindowAction::GrabCursor);
                assert(a[2] == WindowAction::SetCursorVisible(false));
                assert(a[k] == a[0] || a[k] == a[1] || a[k] == a[2]);
            } else {
                assert(a[0] == WindowAction::SetLooking(false));
                assert(a[1] == WindowAction::ReleaseCursor);
                assert(a[2] == WindowAction::SetCursorVisible(true));
                assert(a[k] == a[0] || a[k] == a[1] || a[k] == a[2]);
            }
        },
        _ => {
            let k = choose|k: int| 0 <= k < a.len() && a[k] == WindowAction::SetLooking(looking);
            assert(a[k] == WindowAction::SetLooking(looking));
        },
    }
}

/// Every key event of a running viewer reaches the camera controller,
/// pressed or released, Escape or not, and it is the last thing done for
/// the event; mouse look is dropped exactly when Escape is pressed. Before
/// the renderer runs, no event does anything.
pub proof fn lemma_every_key_reaches_camera(phase: AppPhase, escape: bool, pressed: bool)
    ensures
        phase == AppPhase::Running ==> {
            let a = window_actions_spec(phase, WindowInput::Key { escape, pressed });
            &&& a.len() > 0
            &&& a.last() == WindowAction::ForwardKey
            &&& a.contains(WindowAction::SetLooking(false)) <==> escape && pressed
        },
        phase != AppPhase::Running ==> window_actions_spec(
            phase,
            WindowInput::Key { escape, pressed },
        ).len() == 0,
{
    let a = window_actions_spec(phase, WindowInput::Key { escape, pressed });
    if phase == AppPhase::Running {
        if a.contains(WindowAction::SetLooking(false)) {
            let k = choose|k: int| 0 <= k < a.len() && a[k] == WindowAction::SetLooking(false);
            assert(a[k] == WindowAction::SetLooking(false));
        }
        if escape && pressed {
            assert(a[0] == WindowAction::SetLooking(false));
        }
    }
}

/// The viewer never stops drawing: whatever the outcome of acquiring a
/// frame (other than the impossible validation error), a redraw is
/// requested last.
pub proof fn lemma_frame_always_redraws(status: SurfaceStatus)
    requires
        status != SurfaceStatus::Validation,
    ensures
        frame_actions_spec(status).len() > 0,
        frame_actions_spec(status).last() == WindowAction::RequestRedraw,
        frame_actions_spec(status).contains(WindowAction::PresentFrame) <==> status
            == SurfaceStatus::Success,
{
    let a = frame_actions_spec(status);
    if a.contains(WindowAction::PresentFrame) {
        let k = choose|k: int| 0 <= k < a.len() && a[k] == WindowAction::PresentFrame;
        assert(a[k] == WindowAction::PresentFrame);
    }
    if status == SurfaceStatus::Success {
        assert(a[1] == WindowAction::PresentFrame);
    }
}

} // verus!
