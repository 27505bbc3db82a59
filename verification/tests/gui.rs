//! The window: its camera, its settings and what it shows, with the arithmetic of
//! the machine.
use rnpt::arith::Arith;
use rnpt::camera_nav::{dolly, orbit, pan};
use rnpt::gui::{choose_asset, Action, Event, GuiState, TextureAction};
use rnpt::light::Light;
use rnpt::scalar::{Point3, Scalar};
use rnpt::scene::{Camera, Vec2};
use rnpt::stats::Rates;
use rnpt::tonemap::{convert_probe, tonemap_and_convert, TonemapOperator};
use rnpt::tracer::config::{Pixel, SamplingStrategy};
use rnpt::viewport::{fitted, navigate, pointed_at, PointerInput};

fn s(x: f32) -> Scalar {
    Scalar::from_bits(x.to_bits())
}

fn f(x: Scalar) -> f32 {
    f32::from_bits(x.to_bits())
}

fn point(p: [f32; 3]) -> Point3 {
    Point3 { x: s(p[0]), y: s(p[1]), z: s(p[2]) }
}

fn coords(p: Point3) -> [f32; 3] {
    [f(p.x), f(p.y), f(p.z)]
}

/// Single-precision arithmetic of the machine.
struct Machine;

impl Arith for Machine {
    fn sum(&self, a: Scalar, b: Scalar) -> Scalar {
        s(f(a) + f(b))
    }

    fn difference(&self, a: Scalar, b: Scalar) -> Scalar {
        s(f(a) - f(b))
    }

    fn product(&self, a: Scalar, b: Scalar) -> Scalar {
        s(f(a) * f(b))
    }

    fn quotient(&self, a: Scalar, b: Scalar) -> Scalar {
        s(f(a) / f(b))
    }

    fn fused(&self, a: Scalar, b: Scalar, c: Scalar) -> Scalar {
        s(f(a).mul_add(f(b), f(c)))
    }

    fn root(&self, a: Scalar) -> Scalar {
        s(f(a).sqrt())
    }

    fn sine(&self, a: Scalar) -> Scalar {
        s(f(a).sin())
    }

    fn cosine(&self, a: Scalar) -> Scalar {
        s(f(a).cos())
    }

    fn slope(&self, a: Scalar) -> Scalar {
        s(f(a).tan())
    }

    fn arc_cosine(&self, a: Scalar) -> Scalar {
        s(f(a).acos())
    }

    fn arc_tangent(&self, y: Scalar, x: Scalar) -> Scalar {
        s(f(y).atan2(f(x)))
    }

    fn power(&self, a: Scalar, b: Scalar) -> Scalar {
        s(f(a).powf(f(b)))
    }

    fn whole_power(&self, a: Scalar, n: i32) -> Scalar {
        s(f(a).powi(n))
    }

    fn wrapped(&self, a: Scalar, b: Scalar) -> Scalar {
        s(f(a).rem_euclid(f(b)))
    }

    fn floor(&self, a: Scalar) -> Scalar {
        s(f(a).floor())
    }

    fn exponential(&self, a: Scalar) -> Scalar {
        s(f(a).exp())
    }

    fn logarithm(&self, a: Scalar) -> Scalar {
        s(f(a).ln())
    }

    fn of_count(&self, n: usize) -> Scalar {
        s(n as f32)
    }

    fn to_count(&self, a: Scalar) -> usize {
        f(a) as usize
    }

    fn of_index(&self, n: i32) -> Scalar {
        s(n as f32)
    }

    fn to_index(&self, a: Scalar) -> i32 {
        f(a) as i32
    }

    fn to_natural(&self, a: Scalar) -> u32 {
        f(a) as u32
    }

    fn inner(&self, a: &Vec<Scalar>, b: &Vec<Scalar>) -> Scalar {
        s(a.iter().zip(b).map(|(x, y)| f(*x) * f(*y)).sum())
    }
}

const SECOND: u64 = 1_000_000_000;

fn close(a: [f32; 3], b: [f32; 3]) -> bool {
    (0..3).all(|i| (a[i] - b[i]).abs() < 1e-4)
}

fn camera(position: [f32; 3]) -> Camera {
    Camera { position: point(position), target: point([0.0; 3]), fov: s(60.0) }
}

fn opened() -> GuiState {
    GuiState::new(0, None, 0)
}

#[test]
fn dragging_turns_the_camera_around_its_target() {
    let mut c = camera([0.0, 0.0, 3.0]);
    let quarter = std::f32::consts::FRAC_PI_2 / 0.005;
    orbit(&Machine, &mut c, s(quarter), s(0.0));
    assert!(close(coords(c.position), [3.0, 0.0, 0.0]), "{:?}", coords(c.position));
    assert_eq!(coords(c.target), [0.0; 3]);
    orbit(&Machine, &mut c, s(0.0), s(1e6));
    assert!((coords(c.position)[1] + 3.0).abs() < 1e-3);
}

#[test]
fn moving_takes_the_target_along() {
    let mut c = camera([0.0, 0.0, 2.0]);
    pan(&Machine, &mut c, s(100.0), s(50.0));
    assert!(close(coords(c.position), [-0.2, 0.1, 2.0]), "{:?}", coords(c.position));
    assert!(close(coords(c.target), [-0.2, 0.1, 0.0]));
}

#[test]
fn scrolling_comes_no_nearer_than_a_hundredth() {
    let mut c = camera([0.0, 0.0, 2.0]);
    dolly(&Machine, &mut c, s(100.0));
    assert!(close(coords(c.position), [0.0, 0.0, 2.0 * (-0.5f32).exp()]));
    dolly(&Machine, &mut c, s(1e5));
    assert!(close(coords(c.position), [0.0, 0.0, 0.01]));
}

#[test]
fn cameras_that_cannot_move_stay() {
    let on_target = camera([0.0, 0.0, 0.0]);
    let mut c = on_target;
    orbit(&Machine, &mut c, s(1.0), s(1.0));
    pan(&Machine, &mut c, s(1.0), s(1.0));
    dolly(&Machine, &mut c, s(1.0));
    assert_eq!(c, on_target);
    let above = camera([0.0, 2.0, 0.0]);
    let mut c = above;
    pan(&Machine, &mut c, s(5.0), s(5.0));
    assert_eq!(c, above);
}

fn pointer() -> PointerInput {
    PointerInput {
        ctrl: false,
        primary: false,
        secondary: false,
        delta: Vec2 { x: s(3.0), y: s(-4.0) },
        hovered: true,
        scroll: s(0.0),
    }
}

#[test]
fn buttons_turn_move_and_zoom() {
    let idle = navigate(pointer());
    assert!(!idle.changed);
    let turned = navigate(PointerInput { primary: true, ..pointer() });
    assert!(turned.changed && f(turned.orbit.x) == 3.0 && f(turned.orbit.y) == -4.0 && f(turned.pan.x) == 0.0);
    let moved = navigate(PointerInput { secondary: true, ..pointer() });
    assert!(moved.changed && f(moved.pan.x) == 3.0 && f(moved.orbit.x) == 0.0);
    assert!(!navigate(PointerInput { scroll: s(0.5), ..pointer() }).changed);
    let zoomed = navigate(PointerInput { scroll: s(-0.6), ..pointer() });
    assert!(zoomed.changed && f(zoomed.scroll) == -0.6);
    assert!(!navigate(PointerInput { scroll: s(5.0), hovered: false, ..pointer() }).changed);
    let still = PointerInput { primary: true, delta: Vec2::zero(), ..pointer() };
    assert!(!navigate(still).changed);
}

#[test]
fn probing_moves_nothing() {
    let p = PointerInput { ctrl: true, primary: true, secondary: true, scroll: s(9.0), ..pointer() };
    assert!(!navigate(p).changed);
}

#[test]
fn pictures_are_fitted_into_the_middle() {
    let size = |x, y| Vec2 { x: s(x), y: s(y) };
    let wide = fitted(&Machine, size(400.0, 100.0), size(200.0, 100.0));
    assert_eq!((f(wide.offset.x), f(wide.offset.y), f(wide.size.x), f(wide.size.y)), (100.0, 0.0, 200.0, 100.0));
    let tall = fitted(&Machine, size(100.0, 400.0), size(200.0, 100.0));
    assert_eq!((f(tall.offset.x), f(tall.offset.y), f(tall.size.x), f(tall.size.y)), (0.0, 175.0, 100.0, 50.0));
    let at = pointed_at(&Machine, size(150.0, 50.0), wide, 800, 400);
    assert_eq!((f(at.x), f(at.y)), (200.0, 200.0));
}

#[test]
fn windows_open_on_the_first_choice() {
    let names = |v: &[&str]| v.iter().map(|n| n.to_string()).collect::<Vec<_>>();
    assert_eq!(choose_asset(&names(&["a.glb", "cornell.glb", "z.glb"])), 1);
    assert_eq!(choose_asset(&names(&["a.glb", "z.glb"])), 0);
    assert_eq!(choose_asset(&names(&[])), 0);
    let s0 = opened();
    assert_eq!((s0.width, s0.height, s0.auto_fit), (800, 600, true));
    assert_eq!(s0.strategy, SamplingStrategy::Nirc);
    assert_eq!(s0.tonemapper, TonemapOperator::Aces);
    assert_eq!(s0.camera, Camera::default());
    let c = camera([1.0, 2.0, 3.0]);
    assert_eq!(GuiState::new(4, Some(c), 7).camera, c);
}

#[test]
fn the_picture_follows_the_window_after_a_while() {
    let mut g = opened();
    let size = Vec2 { x: s(1270.0), y: s(30.0) };
    assert_eq!(g.update(&Machine, Event::WindowSize { size, now: SECOND }), Action::Nothing);
    assert_eq!((g.width, g.height, g.local_width), (1000, 64, 800));
    assert_eq!(g.update(&Machine, Event::Frame { now: SECOND + 149_999_999 }), Action::Nothing);
    assert_eq!(g.update(&Machine, Event::Frame { now: SECOND + 150_000_000 }), Action::Reset);
    assert_eq!((g.local_width, g.local_height), (1000, 64));
    assert_eq!(g.update(&Machine, Event::Frame { now: 9 * SECOND }), Action::Nothing);
    assert_eq!(g.update(&Machine, Event::AutoFit { on: false }), Action::Reset);
    let other = Vec2 { x: s(500.0), y: s(500.0) };
    g.update(&Machine, Event::WindowSize { size: other, now: SECOND });
    assert_eq!(g.width, 1000);
}

#[test]
fn starting_anew_forgets_what_was_counted() {
    let mut g = opened();
    g.update(&Machine, Event::Trained { loss: s(2.0) });
    g.update(&Machine, Event::Measured { error: s(0.5) });
    g.update(&Machine, Event::Fetched { paths: 5, rays: 6, shadow_rays: 7, now: 1 });
    assert_eq!(g.update(&Machine, Event::ResetKey), Action::Reset);
    assert_eq!((g.frame_count, g.paths_since_last_fps, f(g.last_loss), f(g.loss_ema), f(g.rel_error)), (0, 0, 0.0, 0.0, 0.0));
    let once = g;
    g.trigger_reset();
    assert_eq!(g, once);
}

#[test]
fn losses_are_averaged() {
    let mut g = opened();
    g.update(&Machine, Event::Trained { loss: s(2.0) });
    assert_eq!((f(g.last_loss), f(g.loss_ema)), (2.0, 2.0));
    g.update(&Machine, Event::Trained { loss: s(1.0) });
    assert_eq!((f(g.last_loss), f(g.loss_ema)), (1.0, 2.0 * 0.95 + 1.0 * 0.05));
    g.update(&Machine, Event::Measured { error: s(0.5) });
    g.update(&Machine, Event::Measured { error: s(0.1) });
    assert_eq!(f(g.rel_error), 0.5 * 0.95 + 0.1 * 0.05);
}

#[test]
fn rays_are_counted_for_half_a_second() {
    let mut g = opened();
    g.update(&Machine, Event::Fetched { paths: 10, rays: 20, shadow_rays: 30, now: SECOND / 4 });
    assert_eq!((g.rates, g.paths_since_last_fps), (Rates::none(), 10));
    g.update(&Machine, Event::Fetched { paths: 1, rays: 2, shadow_rays: 3, now: SECOND / 2 });
    assert_eq!(g.rates, Rates { paths: 11, rays: 22, shadow_rays: 33, elapsed: SECOND / 2 });
    assert_eq!((g.paths_since_last_fps, g.last_fps_time, g.frame_count), (0, SECOND / 2, 2));
}

#[test]
fn choices_start_the_picture_anew() {
    let mut g = opened();
    assert_eq!(g.update(&Machine, Event::SceneChosen { index: 0 }), Action::Nothing);
    assert_eq!(g.update(&Machine, Event::SceneChosen { index: 2 }), Action::LoadScene { index: 2 });
    let c = camera([1.0, 1.0, 1.0]);
    assert_eq!(g.update(&Machine, Event::SceneLoaded { first: Some(c) }), Action::Reset);
    assert_eq!((g.camera, g.selected_camera_index), (c, 0));
    assert_eq!(g.update(&Machine, Event::SceneLoaded { first: None }), Action::Reset);
    assert_eq!(g.camera, c);
    let e = camera([2.0, 2.0, 2.0]);
    assert_eq!(g.update(&Machine, Event::CameraChosen { index: 1, chosen: Some(e) }), Action::Reset);
    assert_eq!(g.update(&Machine, Event::CameraChosen { index: 1, chosen: Some(c) }), Action::Nothing);
    assert_eq!((g.camera, g.selected_camera_index), (e, 1));
    assert_eq!(g.update(&Machine, Event::CameraChosen { index: 9, chosen: None }), Action::Nothing);
    assert_eq!(g.update(&Machine, Event::CameraEdited { camera: c }), Action::Reset);
    assert_eq!(g.update(&Machine, Event::StrategyChosen { strategy: SamplingStrategy::Nirc }), Action::Nothing);
    assert_eq!(g.update(&Machine, Event::StrategyChosen { strategy: SamplingStrategy::Mis }), Action::Reset);
    assert_eq!(g.update(&Machine, Event::SizeEdited { width: 100, height: 200, done: false }), Action::Nothing);
    assert_eq!((g.width, g.local_width), (100, 800));
    assert_eq!(g.update(&Machine, Event::SizeEdited { width: 100, height: 200, done: true }), Action::Reset);
    assert_eq!((g.local_width, g.local_height), (100, 200));
}

#[test]
fn environments_are_loaded_dropped_and_rebuilt() {
    let mut g = opened();
    assert_eq!(g.update(&Machine, Event::EnvChosen { index: 0 }), Action::Nothing);
    assert_eq!(g.update(&Machine, Event::EnvChosen { index: 3 }), Action::LoadEnv { file: 2 });
    assert_eq!(g.update(&Machine, Event::EnvEdited { intensity: s(1.0), rotation: s(0.0) }), Action::Nothing);
    assert_eq!(g.update(&Machine, Event::EnvEdited { intensity: s(2.0), rotation: s(0.0) }), Action::RebuildEnv);
    assert_eq!(g.update(&Machine, Event::EnvEdited { intensity: s(2.0), rotation: s(90.0) }), Action::RebuildEnv);
    let sky = g.rebuild_env(&Machine, vec![point([1.0, 0.5, 0.0]); 8], 4, 2).unwrap();
    let c = Light::Environment(std::sync::Arc::new(sky)).radiance(&Machine, point([0.0, 1.0, 0.0]));
    assert!(close(coords(c), [2.0, 1.0, 0.0]));
    assert!(g.rebuild_env(&Machine, vec![point([1.0; 3]); 7], 4, 2).is_none());
    assert_eq!(g.update(&Machine, Event::EnvChosen { index: 0 }), Action::ClearEnv);
}

#[test]
fn pointer_moves_start_the_picture_anew() {
    let mut g = opened();
    let still = navigate(pointer());
    assert_eq!(g.update(&Machine, Event::Navigated { nav: still }), Action::Nothing);
    let nav = navigate(PointerInput { scroll: s(100.0), ..pointer() });
    assert_eq!(g.update(&Machine, Event::Navigated { nav }), Action::Reset);
    assert!(close(coords(g.camera.position), [0.0, 0.0, 3.0 * (-0.5f32).exp()]));
}

#[test]
fn textures_are_remade_when_stale() {
    let mut g = opened();
    assert_eq!(g.refresh_texture(false, true), TextureAction::Remake);
    assert_eq!(g.refresh_texture(true, true), TextureAction::Refresh);
    assert_eq!(g.refresh_texture(true, false), TextureAction::Keep);
    g.update(&Machine, Event::Exposed { exposure: s(2.0) });
    assert_eq!(g.refresh_texture(true, false), TextureAction::Remake);
    assert_eq!(g.refresh_texture(true, false), TextureAction::Keep);
    g.update(&Machine, Event::TonemapperChosen { operator: TonemapOperator::Reinhard });
    assert_eq!(g.refresh_texture(true, false), TextureAction::Remake);
}

#[test]
fn pixels_show_the_mean_of_their_samples() {
    let pixel = |c: [f32; 3], samples| Pixel { accumulated_radiance: point(c), samples };
    let mut a = vec![7u8; 12];
    tonemap_and_convert(
        &Machine,
        &vec![pixel([1.0, 3.0, 0.0], 1), pixel([4.0, 12.0, 0.0], 4), pixel([9.0; 3], 0)],
        s(1.0),
        TonemapOperator::Reinhard,
        &mut a,
    );
    let shown = |v: f32| ((v / (v + 1.0)).powf(1.0 / 2.2).clamp(0.0, 1.0) * 255.0) as u8;
    assert_eq!(a[..4], [shown(1.0), shown(3.0), 0, 255]);
    assert_eq!(a[..4], a[4..8]);
    assert_eq!(a[8..], [0, 0, 0, 255]);
}

#[test]
fn bytes_past_the_last_whole_pixel_stay() {
    let pixels = vec![Pixel { accumulated_radiance: point([2.0; 3]), samples: 2 }, Pixel::default()];
    let mut bytes = vec![7u8; 9];
    tonemap_and_convert(&Machine, &pixels, s(1.0), TonemapOperator::Reinhard, &mut bytes);
    assert_eq!(bytes, [186, 186, 186, 255, 0, 0, 0, 255, 7]);
    let mut more = vec![7u8; 12];
    tonemap_and_convert(&Machine, &pixels, s(1.0), TonemapOperator::Reinhard, &mut more);
    assert_eq!(more[8..], [7; 4]);
}

#[test]
fn bright_pixels_are_squeezed() {
    let pixel = Pixel { accumulated_radiance: point([0.18, 1e6, 0.5]), samples: 1 };
    let mut c = vec![0u8; 4];
    tonemap_and_convert(&Machine, &vec![pixel], s(2.0), TonemapOperator::Aces, &mut c);
    let shown = |v: f32| {
        let v = (v * (2.51 * v + 0.03)) / (v * (2.43 * v + 0.59) + 0.14);
        (v.powf(1.0 / 2.2).clamp(0.0, 1.0) * 255.0) as u8
    };
    assert_eq!(c, [shown(0.36), 255, shown(1.0), 255]);
}

#[test]
fn probes_are_shown_alike() {
    let c = convert_probe(&Machine, &vec![point([1.0, -1.0, 3.0])], s(1.0), TonemapOperator::Reinhard);
    let shown = |v: f32| ((v / (v + 1.0)).clamp(0.0, 1.0).powf(1.0 / 2.2) * 255.0) as u8;
    assert_eq!([c[0], c[2], c[3]], [shown(1.0), shown(3.0), 255]);
}
