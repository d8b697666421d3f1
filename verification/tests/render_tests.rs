use text_editor::editor::{token_color, DEFAULT_TOKEN_COLOR};
use text_editor::render::{frame_action, resize_to, FrameAction, FrameFailure, SurfaceSize, SurfaceStatus};

#[test]
fn frame_actions_for_each_surface_state() {
    assert_eq!(frame_action(SurfaceStatus::Success), FrameAction::Draw { reconfigure: false });
    assert_eq!(frame_action(SurfaceStatus::Suboptimal), FrameAction::Draw { reconfigure: true });
    assert_eq!(frame_action(SurfaceStatus::Timeout), FrameAction::Fail(FrameFailure::Timeout));
    assert_eq!(frame_action(SurfaceStatus::Occluded), FrameAction::Fail(FrameFailure::Occluded));
    assert_eq!(frame_action(SurfaceStatus::Outdated), FrameAction::Reconfigure);
    assert_eq!(frame_action(SurfaceStatus::Lost), FrameAction::Reconfigure);
    assert_eq!(frame_action(SurfaceStatus::Validation), FrameAction::Skip);
}

#[test]
fn resize_needs_positive_sides() {
    assert_eq!(resize_to(640, 480), Some(SurfaceSize { width: 640, height: 480 }));
    assert_eq!(resize_to(0, 480), None);
    assert_eq!(resize_to(640, 0), None);
}

#[test]
fn token_colors_pack_rgb() {
    assert_eq!(token_color(Some((0x12, 0x34, 0x56))), 0x123456);
    assert_eq!(token_color(Some((255, 0, 1))), 0xFF0001);
    assert_eq!(token_color(None), DEFAULT_TOKEN_COLOR);
    assert_eq!(DEFAULT_TOKEN_COLOR, 0xFFFFFF);
}
