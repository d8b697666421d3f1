//! What the renderer does with each state of its surface, and when it accepts a new size.
use vstd::prelude::*;

verus! {

/// The state of the surface when a frame is requested.
#[derive(Debug, Clone, Copy, PartialEq, Eq)]
pub enum SurfaceStatus {
    /// A frame was acquired.
    Success,
    /// A frame was acquired, but the surface should be configured again.
    Suboptimal,
    /// Acquiring a frame timed out.
    Timeout,
    /// The surface is not visible.
    Occluded,
    /// The surface changed and must be configured again.
    Outdated,
    /// The surface was lost and must be configured again.
    Lost,
    /// A validation error happened while acquiring the frame.
    Validation,
}

/// Why a frame could not be drawn.
#[derive(Debug, Clone, Copy, PartialEq, Eq)]
pub enum FrameFailure {
    Timeout,
    Occluded,
}

/// What to do for a frame.
#[derive(Debug, Clone, Copy, PartialEq, Eq)]
pub enum FrameAction {
    /// Draw into the acquired frame and present it, after configuring the surface again
    /// when `reconfigure` is set.
    Draw { reconfigure: bool },
    /// Configure the surface again and report success without drawing.
    Reconfigure,
    /// Report success without drawing.
    Skip,
    /// Report the failure.
    Fail(FrameFailure),
}

/// The action for each surface state.
pub open spec fn frame_action_spec(status: SurfaceStatus) -> FrameAction {
    match status {
        SurfaceStatus::Success => FrameAction::Draw { reconfigure: false },
        SurfaceStatus::Suboptimal => FrameAction::Draw { reconfigure: true },
        SurfaceStatus::Timeout => FrameAction::Fail(FrameFailure::Timeout),
        SurfaceStatus::Occluded => FrameAction::Fail(FrameFailure::Occluded),
        SurfaceStatus::Outdated => FrameAction::Reconfigure,
        SurfaceStatus::Lost => FrameAction::Reconfigure,
        SurfaceStatus::Validation => FrameAction::Skip,
    }
}

/// The action to take for a frame, given the state of the surface (see `frame_action_spec`).
pub fn frame_action(status: SurfaceStatus) -> (a: FrameAction)
    ensures
        a == frame_action_spec(status),
{
    match status {
        SurfaceStatus::Success => FrameAction::Draw { reconfigure: false },
        SurfaceStatus::Suboptimal => FrameAction::Draw { reconfigure: true },
        SurfaceStatus::Timeout => FrameAction::Fail(FrameFailure::Timeout),
        SurfaceStatus::Occluded => FrameAction::Fail(FrameFailure::Occluded),
        SurfaceStatus::Outdated => FrameAction::Reconfigure,
        SurfaceStatus::Lost => FrameAction::Reconfigure,
        SurfaceStatus::Validation => FrameAction::Skip,
    }
}

/// The size of the surface.
#[derive(Debug, Clone, Copy, PartialEq, Eq)]
pub struct SurfaceSize {
    pub width: u32,
    pub height: u32,
}

/// The size after a resize request: the requested size when both sides are positive (the
/// surface is then configured again), otherwise `None` and the size stays as it is.
pub fn resize_to(width: u32, height: u32) -> (s: Option<SurfaceSize>)
    ensures
        width > 0 && height > 0 ==> s == Some((SurfaceSize { width, height })),
        !(width > 0 && height > 0) ==> s is None,
{
    if width > 0 && height > 0 {
        Some(SurfaceSize { width, height })
    } else {
        None
    }
}

} // verus!
