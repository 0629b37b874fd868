use creature_simulator::camera::{MoveKey, PressedKeys};
use creature_simulator::evaluation::{
    collect_fitness, worker_step, LatestFrame, WorkerAction, WorkerEvent,
};
use creature_simulator::viewer::{
    frame_actions, resume_needs_renderer, window_actions, AppPhase, SurfaceStatus, WindowAction,
    WindowInput,
};

#[test]
fn fitness_lands_in_genome_order() {
    let results = vec![(2usize, 0.5f32), (0, 1.5), (7, 9.0), (2, 2.5)];
    let fitness = collect_fitness(4, f32::NEG_INFINITY, &results);
    assert_eq!(fitness, vec![1.5, f32::NEG_INFINITY, 2.5, f32::NEG_INFINITY]);
}

#[test]
fn no_results_leave_the_default() {
    let fitness = collect_fitness(3, -1i32, &Vec::new());
    assert_eq!(fitness, vec![-1, -1, -1]);
    assert!(collect_fitness(0, 0u8, &vec![(0, 5)]).is_empty());
}

#[test]
fn worker_loop_decisions() {
    assert_eq!(worker_step(WorkerEvent::JobReceived), WorkerAction::Evaluate);
    assert_eq!(
        worker_step(WorkerEvent::TimedOut { terminate_requested: false }),
        WorkerAction::KeepWaiting
    );
    assert_eq!(
        worker_step(WorkerEvent::TimedOut { terminate_requested: true }),
        WorkerAction::Stop
    );
    assert_eq!(worker_step(WorkerEvent::Disconnected), WorkerAction::Stop);
    assert_eq!(worker_step(WorkerEvent::ResultSent), WorkerAction::KeepWaiting);
    assert_eq!(worker_step(WorkerEvent::ResultSendFailed), WorkerAction::Stop);
}

#[test]
fn latest_frame_keeps_the_last_published_frame() {
    let mut cache: LatestFrame<u32> = LatestFrame::new();
    assert_eq!(cache.latest(), None);
    cache.receive(None);
    assert_eq!(cache.latest(), None);
    cache.receive(Some(1));
    cache.receive(None);
    assert_eq!(cache.latest(), Some(&1));
    cache.receive(Some(2));
    assert_eq!(cache.latest(), Some(&2));
}

#[test]
fn only_an_uninitialized_app_builds_its_renderer() {
    assert!(resume_needs_renderer(AppPhase::Uninitialized));
    assert!(!resume_needs_renderer(AppPhase::Loading));
    assert!(!resume_needs_renderer(AppPhase::Running));
}

#[test]
fn events_before_running_are_ignored() {
    assert!(window_actions(AppPhase::Loading, WindowInput::CloseRequested).is_empty());
    assert!(window_actions(AppPhase::Uninitialized, WindowInput::RedrawRequested).is_empty());
}

#[test]
fn escape_releases_mouse_look() {
    let running = AppPhase::Running;
    assert_eq!(
        window_actions(running, WindowInput::Key { escape: true, pressed: true }),
        vec![
            WindowAction::SetLooking(false),
            WindowAction::ReleaseCursor,
            WindowAction::SetCursorVisible(true),
            WindowAction::ForwardKey,
        ]
    );
    assert_eq!(
        window_actions(running, WindowInput::Key { escape: true, pressed: false }),
        vec![WindowAction::ForwardKey]
    );
    assert_eq!(
        window_actions(running, WindowInput::Key { escape: false, pressed: true }),
        vec![WindowAction::ForwardKey]
    );
}

#[test]
fn right_button_holds_mouse_look() {
    let running = AppPhase::Running;
    assert_eq!(
        window_actions(running, WindowInput::MouseButton { right: true, pressed: true }),
        vec![
            WindowAction::SetLooking(true),
            WindowAction::GrabCursor,
            WindowAction::SetCursorVisible(false),
        ]
    );
    assert_eq!(
        window_actions(running, WindowInput::MouseButton { right: true, pressed: false }),
        vec![
            WindowAction::SetLooking(false),
            WindowAction::ReleaseCursor,
            WindowAction::SetCursorVisible(true),
        ]
    );
    assert!(window_actions(running, WindowInput::MouseButton { right: false, pressed: true }).is_empty());
}

#[test]
fn other_window_events() {
    let running = AppPhase::Running;
    assert_eq!(window_actions(running, WindowInput::Resized), vec![WindowAction::Resize]);
    assert_eq!(
        window_actions(running, WindowInput::MouseMotion),
        vec![WindowAction::ForwardMouseMotion]
    );
    assert_eq!(
        window_actions(running, WindowInput::RedrawRequested),
        vec![WindowAction::UpdateScene, WindowAction::AcquireFrame]
    );
    assert_eq!(
        window_actions(running, WindowInput::Occluded { occluded: false }),
        vec![WindowAction::RequestRedraw]
    );
    assert!(window_actions(running, WindowInput::Occluded { occluded: true }).is_empty());
    assert_eq!(window_actions(running, WindowInput::CloseRequested), vec![WindowAction::Exit]);
    assert!(window_actions(running, WindowInput::Other).is_empty());
}

#[test]
fn surface_outcomes() {
    assert_eq!(
        frame_actions(SurfaceStatus::Success),
        vec![WindowAction::RenderFrame, WindowAction::PresentFrame, WindowAction::RequestRedraw]
    );
    assert_eq!(frame_actions(SurfaceStatus::Timeout), vec![WindowAction::RequestRedraw]);
    assert_eq!(frame_actions(SurfaceStatus::Occluded), vec![WindowAction::RequestRedraw]);
    assert_eq!(
        frame_actions(SurfaceStatus::Outdated),
        vec![
            WindowAction::Report(SurfaceStatus::Outdated),
            WindowAction::ReconfigureSurface,
            WindowAction::RequestRedraw,
        ]
    );
    assert_eq!(
        frame_actions(SurfaceStatus::Suboptimal),
        vec![
            WindowAction::Report(SurfaceStatus::Suboptimal),
            WindowAction::ReconfigureSurface,
            WindowAction::RequestRedraw,
        ]
    );
    assert_eq!(
        frame_actions(SurfaceStatus::Lost),
        vec![
            WindowAction::Report(SurfaceStatus::Lost),
            WindowAction::RemakeSurface,
            WindowAction::ReconfigureSurface,
            WindowAction::RequestRedraw,
        ]
    );
}

#[test]
fn held_keys_steer_the_camera() {
    let mut keys = PressedKeys::new();
    let still = keys.movement_intent();
    assert_eq!((still.forward, still.right, still.up), (0, 0, 0));
    keys.key_changed(MoveKey::W, true);
    keys.key_changed(MoveKey::A, true);
    keys.key_changed(MoveKey::ShiftLeft, true);
    let intent = keys.movement_intent();
    assert_eq!((intent.forward, intent.right, intent.up), (1, -1, -1));
    keys.key_changed(MoveKey::S, true);
    keys.key_changed(MoveKey::D, true);
    let intent = keys.movement_intent();
    assert_eq!((intent.forward, intent.right, intent.up), (0, 0, -1));
    assert!(keys.contains(MoveKey::S));
    assert!(!keys.contains(MoveKey::Space));
}

#[test]
fn releasing_a_key_undoes_pressing_it() {
    let mut keys = PressedKeys::new();
    keys.key_changed(MoveKey::Space, true);
    assert!(keys.contains(MoveKey::Space));
    keys.key_changed(MoveKey::Space, true);
    keys.key_changed(MoveKey::Space, false);
    assert!(!keys.contains(MoveKey::Space));
    let intent = keys.movement_intent();
    assert_eq!(intent.up, 0);
}
