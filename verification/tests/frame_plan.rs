use malx::frame::{
    choose_surface_format, initial_surface_size, is_renderable_size, on_surface_status,
    plan_frame, surface_resize, AcquireStep, FrameInputs, SurfaceStatus,
};

fn inputs(hit: bool, normal: bool) -> FrameInputs {
    FrameInputs {
        has_scene: true,
        has_scene_pipeline: true,
        has_brush_pipeline: true,
        has_tonemap: true,
        has_brush: true,
        brush_hit: hit,
        brush_normal: normal,
    }
}

#[test]
fn zero_sized_surfaces() {
    assert!(!is_renderable_size(0, 720));
    assert!(!is_renderable_size(1280, 0));
    assert!(is_renderable_size(1, 1));
    assert_eq!(initial_surface_size(0, 0), (1, 1));
    assert_eq!(initial_surface_size(1280, 720), (1280, 720));
}

#[test]
fn first_non_srgb_format() {
    assert_eq!(choose_surface_format(&vec![true, false, false]), 1);
    assert_eq!(choose_surface_format(&vec![false, true]), 0);
    assert_eq!(choose_surface_format(&vec![true, true]), 0);
}

#[test]
fn surface_status_steps() {
    assert_eq!(on_surface_status(false, SurfaceStatus::Success), AcquireStep::Draw);
    assert_eq!(on_surface_status(false, SurfaceStatus::Suboptimal), AcquireStep::ReconfigureAndRetry);
    assert_eq!(on_surface_status(false, SurfaceStatus::Outdated), AcquireStep::ReconfigureAndSkip);
    assert_eq!(on_surface_status(false, SurfaceStatus::Lost), AcquireStep::ReconfigureAndSkip);
    assert_eq!(on_surface_status(false, SurfaceStatus::Timeout), AcquireStep::Skip);
    assert_eq!(on_surface_status(false, SurfaceStatus::Occluded), AcquireStep::Skip);
    assert_eq!(on_surface_status(false, SurfaceStatus::Validation), AcquireStep::ReportAndSkip);
    assert_eq!(on_surface_status(true, SurfaceStatus::Success), AcquireStep::Draw);
    assert_eq!(on_surface_status(true, SurfaceStatus::Suboptimal), AcquireStep::Skip);
    assert_eq!(on_surface_status(true, SurfaceStatus::Lost), AcquireStep::Skip);
}

#[test]
fn cursor_on_model_draws_rings_only() {
    let p = plan_frame(inputs(true, true));
    assert!(p.brush_rings && !p.brush_overlay);
    assert!(p.scene_pass && p.draw_objects && p.tonemap_pass && p.upload_camera);
}

#[test]
fn cursor_off_model_draws_overlay_only() {
    let p = plan_frame(inputs(false, false));
    assert!(!p.brush_rings && p.brush_overlay);
}

#[test]
fn no_brush_no_cursor() {
    let mut f = inputs(false, false);
    f.has_brush = false;
    let p = plan_frame(f);
    assert!(!p.brush_rings && !p.brush_overlay && p.draw_objects);
}

#[test]
fn without_hdr_target_only_camera_upload() {
    let mut f = inputs(true, true);
    f.has_tonemap = false;
    let p = plan_frame(f);
    assert!(p.upload_camera && !p.scene_pass && !p.draw_objects && !p.brush_rings && !p.tonemap_pass);
}

#[test]
fn surface_size_stays_at_least_one() {
    let mut size = initial_surface_size(0, 0);
    assert_eq!(size, (1, 1));
    for (w, h) in [(800u32, 600u32), (0, 600), (800, 0), (0, 0), (1, 1), (1920, 1080)] {
        if let Some(s) = surface_resize(w, h) {
            size = s;
        }
        assert!(size.0 >= 1 && size.1 >= 1);
    }
    assert_eq!(size, (1920, 1080));
    assert_eq!(surface_resize(0, 5), None);
    assert_eq!(surface_resize(3, 5), Some((3, 5)));
}
