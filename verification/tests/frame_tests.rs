use tetris::game::{frame_sleep_nanos, quit_requested, FrameLoop, WindowInput, FPS};

#[test]
fn quit_inputs() {
    assert!(quit_requested(WindowInput::EscapePressed));
    assert!(quit_requested(WindowInput::CloseRequested));
    assert!(!quit_requested(WindowInput::Resized));
    assert!(!quit_requested(WindowInput::Other));
}

#[test]
fn frame_budget_at_sixty_fps() {
    assert_eq!(frame_sleep_nanos(FPS, 0), Some(16_666_666));
    assert_eq!(frame_sleep_nanos(FPS, 666), Some(16_666_000));
    assert_eq!(frame_sleep_nanos(FPS, 16_666_666), Some(0));
    assert_eq!(frame_sleep_nanos(FPS, 16_666_667), None);
}

#[test]
fn first_event_builds_the_swapchain() {
    let mut l = FrameLoop::new(1);
    assert_eq!(l.pos(), 40);
    assert_eq!(l.counter(), 1);
    let plan = l.handle_event(WindowInput::Other);
    assert!(!plan.destroy_swapchain);
    assert!(!plan.quit);
    assert!(plan.build_swapchain);
    assert!(l.has_swapchain());
    let plan = l.handle_event(WindowInput::Other);
    assert!(!plan.destroy_swapchain && !plan.quit && !plan.build_swapchain);
}

#[test]
fn resize_replaces_the_swapchain() {
    let mut l = FrameLoop::new(1);
    l.handle_event(WindowInput::Other);
    let plan = l.handle_event(WindowInput::Resized);
    assert!(plan.destroy_swapchain);
    assert!(!plan.quit);
    assert!(plan.build_swapchain);
    assert!(l.has_swapchain());
    assert!(!l.rebuild_swapchain());
}

#[test]
fn escape_tears_down_and_quits() {
    let mut l = FrameLoop::new(1);
    l.handle_event(WindowInput::Other);
    let plan = l.handle_event(WindowInput::EscapePressed);
    assert!(plan.destroy_swapchain);
    assert!(plan.quit);
    assert!(!plan.build_swapchain);
    assert!(!l.has_swapchain());
    let mut fresh = FrameLoop::new(0);
    let plan = fresh.handle_event(WindowInput::CloseRequested);
    assert!(!plan.destroy_swapchain && plan.quit && !plan.build_swapchain);
}

#[test]
fn failures_rebuild_on_next_event() {
    let mut l = FrameLoop::new(1);
    l.handle_event(WindowInput::Other);
    assert_eq!(l.acquired_image(Some(2)), 2);
    assert!(!l.rebuild_swapchain());
    assert_eq!(l.acquired_image(None), 0);
    assert!(l.rebuild_swapchain());
    let plan = l.handle_event(WindowInput::Other);
    assert!(plan.destroy_swapchain && plan.build_swapchain);
    assert!(!l.rebuild_swapchain());
    l.presented(true);
    assert!(!l.rebuild_swapchain());
    l.presented(false);
    assert!(l.rebuild_swapchain());
}

#[test]
fn piece_drops_every_interval_until_the_bottom() {
    let mut l = FrameLoop::new(0);
    assert!(!l.advance(250_000_000));
    assert_eq!(l.pos(), 40);
    assert_eq!(l.counter(), 1);
    assert!(l.advance(250_000_001));
    assert_eq!(l.pos(), 66);
    for _ in 0..100 {
        l.advance(300_000_000);
    }
    assert_eq!(l.pos(), 482);
    assert!(l.advance(300_000_000));
    assert_eq!(l.pos(), 482);
}

#[test]
fn counter_wraps_at_255() {
    let mut l = FrameLoop::new(253);
    l.advance(0);
    assert_eq!(l.counter(), 254);
    l.advance(0);
    assert_eq!(l.counter(), 0);
}
