use ray_trace::integrator::{PathAction, PathState, SurfaceEvent};

#[test]
fn zero_depth_is_black_at_once() {
    let s = PathState::start(0);
    assert_eq!(s.action, PathAction::Black);
    let s = PathState::start(-3);
    assert_eq!(s.action, PathAction::Black);
}

#[test]
fn ended_path_ignores_events() {
    let mut s = PathState::start(0);
    s.advance(SurfaceEvent::Miss);
    assert_eq!(s, PathState { remaining: 0, action: PathAction::Black });
    let mut s = PathState::start(2);
    s.advance(SurfaceEvent::Miss);
    s.advance(SurfaceEvent::Scattered);
    assert_eq!(s, PathState { remaining: 2, action: PathAction::Sky });
}

#[test]
fn miss_goes_to_sky() {
    let mut s = PathState::start(5);
    assert_eq!(s.action, PathAction::Trace);
    s.advance(SurfaceEvent::Miss);
    assert_eq!(s, PathState { remaining: 5, action: PathAction::Sky });
}

#[test]
fn absorption_is_black() {
    let mut s = PathState::start(5);
    s.advance(SurfaceEvent::Scattered);
    s.advance(SurfaceEvent::Absorbed);
    assert_eq!(s, PathState { remaining: 4, action: PathAction::Black });
}

#[test]
fn scattering_uses_the_budget() {
    let mut s = PathState::start(3);
    let mut queries = 0;
    while s.action == PathAction::Trace {
        queries += 1;
        s.advance(SurfaceEvent::Scattered);
    }
    assert_eq!(queries, 3);
    assert_eq!(s, PathState { remaining: 0, action: PathAction::Black });
}

#[test]
fn depth_one_sees_the_sky_directly() {
    let mut s = PathState::start(1);
    s.advance(SurfaceEvent::Miss);
    assert_eq!(s.action, PathAction::Sky);
    let mut s = PathState::start(1);
    s.advance(SurfaceEvent::Scattered);
    assert_eq!(s.action, PathAction::Black);
}
