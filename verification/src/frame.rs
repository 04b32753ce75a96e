//! Frame decisions of the renderer: surface size, swapchain format, what to
//! do with the swapchain status, and which of the three passes run.
//!
//! Every frame has up to three passes: the scene pass (objects and the 3-D
//! brush rings) into the HDR target, the 2-D brush overlay when the cursor
//! misses the model, and the tonemap pass onto the swapchain.

use vstd::prelude::*;

verus! {

/// Whether a surface of `width` × `height` can be rendered to.
pub open spec fn renderable(width: u32, height: u32) -> bool {
    width != 0 && height != 0
}

/// Whether a surface of `width` × `height` can be rendered to; a resize to
/// a zero size is ignored and a frame of zero size is skipped.
pub fn is_renderable_size(width: u32, height: u32) -> (r: bool)
    ensures
        r == renderable(width, height),
{
    width != 0 && height != 0
}

/// Initial swapchain size for a window of `width` × `height`: each side at
/// least 1.
pub open spec fn initial_size(width: u32, height: u32) -> (u32, u32) {
    (if width == 0 {
        1
    } else {
        width
    }, if height == 0 {
        1
    } else {
        height
    })
}

/// Initial swapchain size for a window of `width` × `height`: each side at
/// least 1.
pub fn initial_surface_size(width: u32, height: u32) -> (r: (u32, u32))
    ensures
        r == initial_size(width, height),
{
    (if width == 0 {
        1
    } else {
        width
    }, if height == 0 {
        1
    } else {
        height
    })
}

/// The swapchain size a window resize to `width` × `height` asks for:
/// that size when it can be rendered to, nothing (the resize is ignored and
/// the surface keeps its size) otherwise.
pub open spec fn resize_target(width: u32, height: u32) -> Option<(u32, u32)> {
    if renderable(width, height) {
        Some((width, height))
    } else {
        None
    }
}

/// The swapchain size a window resize to `width` × `height` asks for, or
/// `None` when the resize is to be ignored.
pub fn surface_resize(width: u32, height: u32) -> (r: Option<(u32, u32)>)
    ensures
        r == resize_target(width, height),
{
    if is_renderable_size(width, height) {
        Some((width, height))
    } else {
        None
    }
}

/// The configured size after a resize to `width` × `height` from `current`.
pub open spec fn size_after_resize(current: (u32, u32), width: u32, height: u32) -> (u32, u32) {
    match resize_target(width, height) {
        Some(size) => size,
        None => current,
    }
}

/// Surface size law: the swapchain starts at least 1 × 1 whatever the
/// window's size, and any resize keeps it at least 1 × 1, so the configured
/// surface can always be rendered to.
pub proof fn lemma_surface_size_stays_positive(
    window_width: u32,
    window_height: u32,
    current: (u32, u32),
    width: u32,
    height: u32,
)
    ensures
        renderable(initial_size(window_width, window_height).0, initial_size(window_width, window_height).1),
        renderable(current.0, current.1) ==> renderable(
            size_after_resize(current, width, height).0,
            size_after_resize(current, width, height).1,
        ),
{
}

/// Which of the offered swapchain formats to use, given for each whether it
/// is an sRGB format: the first non-sRGB one (gamma is applied by the
/// tonemap pass), or the first one when all are sRGB.
pub fn choose_surface_format(is_srgb: &Vec<bool>) -> (r: usize)
    requires
        is_srgb@.len() > 0,
    ensures
        r < is_srgb@.len(),
        !is_srgb@[r as int] ==> forall|i: int| 0 <= i < r ==> #[trigger] is_srgb@[i],
        is_srgb@[r as int] ==> r == 0 && forall|i: int|
            0 <= i < is_srgb@.len() ==> #[trigger] is_srgb@[i],
{
    let mut i: usize = 0;
    while i < is_srgb.len()
        invariant
            i <= is_srgb@.len(),
            forall|j: int| 0 <= j < i ==> #[trigger] is_srgb@[j],
        decreases is_srgb@.len() - i,
    {
        if !is_srgb[i] {
            return i;
        }
        i = i + 1;
    }
    0
}

/// Status of an attempt to get the next swapchain texture.
#[derive(Copy, Clone, Debug, PartialEq, Eq, Structural)]
pub enum SurfaceStatus {
    Success,
    Suboptimal,
    Outdated,
    Lost,
    Timeout,
    Occluded,
    Validation,
}

/// What to do after an attempt to get the swapchain texture.
#[derive(Copy, Clone, Debug, PartialEq, Eq, Structural)]
pub enum AcquireStep {
    /// Render into the texture.
    Draw,
    /// Release the texture, reconfigure the surface and try once more.
    ReconfigureAndRetry,
    /// Reconfigure the surface and skip the frame.
    ReconfigureAndSkip,
    /// Skip the frame.
    Skip,
    /// Report a validation error and skip the frame.
    ReportAndSkip,
}

/// The step for `status`; `retried` tells whether this is the second try
/// after a suboptimal texture, where anything but success skips the frame.
pub open spec fn acquire_step(retried: bool, status: SurfaceStatus) -> AcquireStep {
    if retried {
        if status == SurfaceStatus::Success {
            AcquireStep::Draw
        } else {
            AcquireStep::Skip
        }
    } else {
        match status {
            SurfaceStatus::Success => AcquireStep::Draw,
            SurfaceStatus::Suboptimal => AcquireStep::ReconfigureAndRetry,
            SurfaceStatus::Outdated | SurfaceStatus::Lost => AcquireStep::ReconfigureAndSkip,
            SurfaceStatus::Timeout | SurfaceStatus::Occluded => AcquireStep::Skip,
            SurfaceStatus::Validation => AcquireStep::ReportAndSkip,
        }
    }
}

/// What to do with the swapchain status of an attempt.
pub fn on_surface_status(retried: bool, status: SurfaceStatus) -> (r: AcquireStep)
    ensures
        r == acquire_step(retried, status),
{
    if retried {
        match status {
            SurfaceStatus::Success => AcquireStep::Draw,
            _ => AcquireStep::Skip,
        }
    } else {
        match status {
            SurfaceStatus::Success => AcquireStep::Draw,
            SurfaceStatus::Suboptimal => AcquireStep::ReconfigureAndRetry,
            SurfaceStatus::Outdated | SurfaceStatus::Lost => AcquireStep::ReconfigureAndSkip,
            SurfaceStatus::Timeout | SurfaceStatus::Occluded => AcquireStep::Skip,
            SurfaceStatus::Validation => AcquireStep::ReportAndSkip,
        }
    }
}

/// Surface laws: a frame is drawn only into a texture acquired with
/// success, and a second try never asks for a third.
pub proof fn lemma_acquire_laws(retried: bool, status: SurfaceStatus)
    ensures
        acquire_step(retried, status) == AcquireStep::Draw <==> status == SurfaceStatus::Success,
        retried ==> acquire_step(retried, status) != AcquireStep::ReconfigureAndRetry,
{
}

/// What exists when a frame is rendered, and where the brush cursor is.
#[derive(Copy, Clone, Debug, PartialEq, Eq, Structural)]
pub struct FrameInputs {
    pub has_scene: bool,
    pub has_scene_pipeline: bool,
    pub has_brush_pipeline: bool,
    /// The HDR target and tonemap pipeline exist.
    pub has_tonemap: bool,
    /// A brush cursor is to be drawn.
    pub has_brush: bool,
    /// The cursor ray hit the model.
    pub brush_hit: bool,
    /// A surface normal is known at the hit.
    pub brush_normal: bool,
}

/// The work of one frame.
#[derive(Copy, Clone, Debug, PartialEq, Eq, Structural)]
pub struct FramePlan {
    /// Upload the camera uniform.
    pub upload_camera: bool,
    /// Run the scene pass into the HDR target.
    pub scene_pass: bool,
    /// Draw the scene objects in the scene pass.
    pub draw_objects: bool,
    /// Draw the 3-D brush rings in the scene pass.
    pub brush_rings: bool,
    /// Run the 2-D brush overlay pass.
    pub brush_overlay: bool,
    /// Run the tonemap pass onto the swapchain.
    pub tonemap_pass: bool,
}

/// The plan for a frame with inputs `f`.
pub open spec fn frame_plan(f: FrameInputs) -> FramePlan {
    FramePlan {
        upload_camera: f.has_scene && f.has_scene_pipeline,
        scene_pass: f.has_tonemap,
        draw_objects: f.has_tonemap && f.has_scene && f.has_scene_pipeline,
        brush_rings: f.has_tonemap && f.has_brush && f.has_brush_pipeline && f.brush_hit
            && f.brush_normal,
        brush_overlay: f.has_brush && !f.brush_hit && f.has_brush_pipeline && f.has_tonemap,
        tonemap_pass: f.has_tonemap,
    }
}

/// Decides which passes and draws a frame consists of.
pub fn plan_frame(f: FrameInputs) -> (r: FramePlan)
    ensures
        r == frame_plan(f),
{
    FramePlan {
        upload_camera: f.has_scene && f.has_scene_pipeline,
        scene_pass: f.has_tonemap,
        draw_objects: f.has_tonemap && f.has_scene && f.has_scene_pipeline,
        brush_rings: f.has_tonemap && f.has_brush && f.has_brush_pipeline && f.brush_hit
            && f.brush_normal,
        brush_overlay: f.has_brush && !f.brush_hit && f.has_brush_pipeline && f.has_tonemap,
        tonemap_pass: f.has_tonemap,
    }
}

/// Brush laws: the 3-D rings and the 2-D fallback are never drawn in the
/// same frame; with a brush, both pipelines and the HDR target, exactly one
/// of them is drawn when the cursor hits the model with a known normal or
/// misses it.
pub proof fn lemma_one_brush_cursor(f: FrameInputs)
    ensures
        !(frame_plan(f).brush_rings && frame_plan(f).brush_overlay),
        f.has_brush && f.has_brush_pipeline && f.has_tonemap && (!f.brush_hit || f.brush_normal)
            ==> (frame_plan(f).brush_rings || frame_plan(f).brush_overlay),
        frame_plan(f).draw_objects ==> frame_plan(f).scene_pass,
        frame_plan(f).brush_rings ==> frame_plan(f).scene_pass,
{
}

} // verus!
