//! What the window of the renderer does: its settings, what changes them, and
//! what is to be done about a change.
//!
//! Whoever runs the window hands in what happened as an [`Event`] and performs
//! the [`Action`] that comes back. Times are in nanoseconds since some start.
use vstd::prelude::*;
use crate::arith::{Arith, ArithRules};
use crate::camera_nav::{dolly, orbit, pan};
use crate::import::default_camera;
use crate::light::EnvLight;
use crate::oxyde::DEGREE_KEY;
use crate::scalar::Scalar;
use crate::scene::{Camera, Color, Vec2};
use crate::stats::Rates;
use crate::tonemap::TonemapOperator;
use crate::tracer::config::SamplingStrategy;
use crate::viewport::NavInput;

verus! {

/// Width and height of the first picture.
pub const FIRST_WIDTH: usize = 800;

pub const FIRST_HEIGHT: usize = 600;

/// How long a window has to keep its size until the picture follows.
pub const RESIZE_DELAY: u64 = 150_000_000;

/// How long rays are counted until their rate is shown.
pub const RATE_PERIOD: u64 = 500_000_000;

/// Key of the width that is taken up beside the picture.
pub const PANEL_WIDTH_KEY: i32 = 0x4387_0000;

/// Key of the least width and height of a picture.
pub const LEAST_SIDE_KEY: i32 = 0x4280_0000;

/// Keys of the weights of the old and the new value in a shown average.
pub const OLD_WEIGHT_KEY: i32 = 0x3f73_3333;

pub const NEW_WEIGHT_KEY: i32 = 0x3d4c_cccd;

/// Key of the least change of the environment that counts.
pub const LEAST_CHANGE_KEY: i32 = 0x3400_0000;

/// The file that is shown first if it is there.
pub open spec fn first_choice() -> Seq<char> {
    "cornell.glb"@
}

/// The settings of the window and what it has counted.
#[derive(Clone, Copy, PartialEq, Eq, Structural, Debug)]
pub struct GuiState {
    pub camera: Camera,
    /// The size that the next picture will have.
    pub width: usize,
    pub height: usize,
    pub exposure: Scalar,
    pub tonemapper: TonemapOperator,
    pub last_fps_time: u64,
    pub paths_since_last_fps: u64,
    pub rays_since_last_fps: u64,
    pub shadow_rays_since_last_fps: u64,
    /// The size of the picture that is being rendered.
    pub local_width: usize,
    pub local_height: usize,
    pub rates: Rates,
    /// What the texture on screen was made with.
    pub last_exposure: Scalar,
    pub last_tonemapper: TonemapOperator,
    pub selected_asset_index: usize,
    pub auto_fit: bool,
    pub resize_timeout: Option<u64>,
    pub strategy: SamplingStrategy,
    pub selected_camera_index: usize,
    /// 0 for no environment, else one more than the place of its file.
    pub selected_env: usize,
    pub env_intensity: Scalar,
    /// In degrees.
    pub env_rotation: Scalar,
    pub frame_count: u64,
    pub last_loss: Scalar,
    pub loss_ema: Scalar,
    pub rel_error: Scalar,
}

/// What happened.
#[derive(Clone, Copy, PartialEq, Eq, Structural, Debug)]
pub enum Event {
    /// A frame begins.
    Frame { now: u64 },
    /// The key that starts the picture anew was pressed.
    ResetKey,
    /// The network was trained.
    Trained { loss: Scalar },
    /// The relative error of the network was measured.
    Measured { error: Scalar },
    /// Pixels were fetched; so much was traced since the last time.
    Fetched { paths: u64, rays: u64, shadow_rays: u64, now: u64 },
    /// Another scene was chosen.
    SceneChosen { index: usize },
    /// A scene was loaded; its first camera, if it has one.
    SceneLoaded { first: Option<Camera> },
    /// A camera of the scene was chosen; the camera, if it is there.
    CameraChosen { index: usize, chosen: Option<Camera> },
    /// The camera was edited.
    CameraEdited { camera: Camera },
    /// Fitting the picture to the window was switched.
    AutoFit { on: bool },
    /// The size was edited; whether the edit is complete.
    SizeEdited { width: usize, height: usize, done: bool },
    /// A way to estimate light was chosen.
    StrategyChosen { strategy: SamplingStrategy },
    /// An environment was chosen.
    EnvChosen { index: usize },
    /// The environment was edited.
    EnvEdited { intensity: Scalar, rotation: Scalar },
    /// The exposure was edited.
    Exposed { exposure: Scalar },
    /// A way to squeeze radiance was chosen.
    TonemapperChosen { operator: TonemapOperator },
    /// The pointer moved the camera.
    Navigated { nav: NavInput },
    /// The size of the window was read.
    WindowSize { size: Vec2, now: u64 },
}

/// What is to be done.
#[derive(Clone, Copy, PartialEq, Eq, Structural, Debug)]
pub enum Action {
    Nothing,
    /// Start the picture anew.
    Reset,
    /// Load a scene.
    LoadScene { index: usize },
    /// Load an environment, build it, and start the picture anew.
    LoadEnv { file: usize },
    /// Drop the environment and start the picture anew.
    ClearEnv,
    /// Build the environment again and start the picture anew.
    RebuildEnv,
}

/// What is to be done about the texture on screen.
#[derive(Clone, Copy, PartialEq, Eq, Structural, Debug)]
pub enum TextureAction {
    Keep,
    /// Make it, or make it anew.
    Remake,
    /// Fill it with the pixels there are now.
    Refresh,
}

/// Whether two numbers differ, as numbers do: what is not a number differs from
/// everything.
#[verifier::allow_in_spec]
pub fn differ(a: Scalar, b: Scalar) -> bool
    returns
        !(a.le(b) && b.le(a)),
{
    !(a.le(b) && b.le(a))
}

impl GuiState {
    /// The settings with which a window opens.
    pub open spec fn first(selected_asset_index: usize, camera: Camera, now: u64) -> GuiState {
        GuiState {
            camera,
            width: FIRST_WIDTH,
            height: FIRST_HEIGHT,
            exposure: Scalar::one(),
            tonemapper: TonemapOperator::Aces,
            last_fps_time: now,
            paths_since_last_fps: 0,
            rays_since_last_fps: 0,
            shadow_rays_since_last_fps: 0,
            local_width: FIRST_WIDTH,
            local_height: FIRST_HEIGHT,
            rates: Rates::none(),
            last_exposure: Scalar::one(),
            last_tonemapper: TonemapOperator::Aces,
            selected_asset_index,
            auto_fit: true,
            resize_timeout: None,
            strategy: SamplingStrategy::Nirc,
            selected_camera_index: 0,
            selected_env: 0,
            env_intensity: Scalar::one(),
            env_rotation: Scalar::zero(),
            frame_count: 0,
            last_loss: Scalar::zero(),
            loss_ema: Scalar::zero(),
            rel_error: Scalar::zero(),
        }
    }

    /// The settings after the picture was started anew: nothing is counted yet.
    pub open spec fn restarted(self) -> GuiState {
        GuiState {
            local_width: self.width,
            local_height: self.height,
            frame_count: 0,
            last_loss: Scalar::zero(),
            loss_ema: Scalar::zero(),
            rel_error: Scalar::zero(),
            paths_since_last_fps: 0,
            rays_since_last_fps: 0,
            shadow_rays_since_last_fps: 0,
            rates: Rates::none(),
            ..self
        }
    }

    /// Whether the counters can take what an event brings.
    pub open spec fn can_count(self, event: Event) -> bool {
        match event {
            Event::Fetched { paths, rays, shadow_rays, now } => {
                &&& self.paths_since_last_fps + paths <= u64::MAX
                &&& self.rays_since_last_fps + rays <= u64::MAX
                &&& self.shadow_rays_since_last_fps + shadow_rays <= u64::MAX
                &&& self.frame_count < u64::MAX
            },
            Event::WindowSize { size, now } => now + RESIZE_DELAY <= u64::MAX,
            _ => true,
        }
    }

    /// The settings after some rays were counted. Every so often the counts become
    /// a rate and start again.
    pub open spec fn counted(self, paths: u64, rays: u64, shadow_rays: u64, now: u64) -> GuiState {
        let paths = (self.paths_since_last_fps + paths) as u64;
        let rays = (self.rays_since_last_fps + rays) as u64;
        let shadow_rays = (self.shadow_rays_since_last_fps + shadow_rays) as u64;
        let frame_count = (self.frame_count + 1) as u64;
        if now - self.last_fps_time >= RATE_PERIOD {
            GuiState {
                rates: Rates { paths, rays, shadow_rays, elapsed: (now - self.last_fps_time) as u64 },
                paths_since_last_fps: 0,
                rays_since_last_fps: 0,
                shadow_rays_since_last_fps: 0,
                last_fps_time: now,
                frame_count,
                ..self
            }
        } else {
            GuiState {
                paths_since_last_fps: paths,
                rays_since_last_fps: rays,
                shadow_rays_since_last_fps: shadow_rays,
                frame_count,
                ..self
            }
        }
    }
}

/// The settings after a step, and what is to be done.
#[derive(Clone, Copy, PartialEq, Eq, Structural, Debug)]
pub struct Step {
    pub state: GuiState,
    pub action: Action,
}

impl Step {
    /// A step after which the picture starts anew, for some reason.
    pub open spec fn restarting(state: GuiState, action: Action) -> Step {
        Step { state: state.restarted(), action }
    }

    /// A step after which there is nothing to do.
    pub open spec fn quiet(state: GuiState) -> Step {
        Step { state, action: Action::Nothing }
    }
}

impl ArithRules {
    /// A shown average: the first value, then mostly the old one.
    pub open spec fn shown_average(self, old: Scalar, new: Scalar) -> Scalar {
        if old == Scalar::zero() {
            new
        } else {
            self.sum(
                self.product(old, Scalar { key: OLD_WEIGHT_KEY }),
                self.product(new, Scalar { key: NEW_WEIGHT_KEY }),
            )
        }
    }

    /// Whether an edit changes a number enough to count.
    pub open spec fn is_changed(self, old: Scalar, new: Scalar) -> bool {
        (Scalar { key: LEAST_CHANGE_KEY }).lt(self.difference(new, old).magnitude())
    }

    /// The width of the picture that fits a window.
    pub open spec fn fitting_width(self, window: Scalar) -> usize {
        self.to_count(
            self.difference(window, Scalar { key: PANEL_WIDTH_KEY }).max(Scalar { key: LEAST_SIDE_KEY }),
        )
    }

    /// The height of the picture that fits a window.
    pub open spec fn fitting_height(self, window: Scalar) -> usize {
        self.to_count(window.max(Scalar { key: LEAST_SIDE_KEY }))
    }

    /// A camera, moved by the pointer.
    #[verifier::opaque]
    pub open spec fn navigated(self, camera: Camera, nav: NavInput) -> Camera {
        self.dollied(
            self.panned(self.orbited(camera, nav.orbit.x, nav.orbit.y), nav.pan.x, nav.pan.y),
            nav.scroll,
        )
    }

    /// What an event changes, and what is to be done about it.
    pub open spec fn gui_step(self, s: GuiState, event: Event) -> Step {
        match event {
            Event::Frame { now } => match s.resize_timeout {
                Some(t) if now >= t => Step::restarting(GuiState { resize_timeout: None, ..s }, Action::Reset),
                _ => Step::quiet(s),
            },
            Event::ResetKey => Step::restarting(s, Action::Reset),
            Event::Trained { loss } => Step::quiet(
                GuiState { last_loss: loss, loss_ema: self.shown_average(s.loss_ema, loss), ..s },
            ),
            Event::Measured { error } => Step::quiet(
                GuiState { rel_error: self.shown_average(s.rel_error, error), ..s },
            ),
            Event::Fetched { paths, rays, shadow_rays, now } => Step::quiet(s.counted(paths, rays, shadow_rays, now)),
            Event::SceneChosen { index } => if index == s.selected_asset_index {
                Step::quiet(s)
            } else {
                Step {
                    state: GuiState { selected_asset_index: index, ..s },
                    action: Action::LoadScene { index },
                }
            },
            Event::SceneLoaded { first } => Step::restarting(
                GuiState {
                    selected_camera_index: 0,
                    camera: match first {
                        Some(c) => c,
                        None => s.camera,
                    },
                    ..s
                },
                Action::Reset,
            ),
            Event::CameraChosen { index, chosen } => match chosen {
                Some(c) if index != s.selected_camera_index => Step::restarting(
                    GuiState { selected_camera_index: index, camera: c, ..s },
                    Action::Reset,
                ),
                _ => Step::quiet(GuiState { selected_camera_index: index, ..s }),
            },
            Event::CameraEdited { camera } => Step::restarting(GuiState { camera, ..s }, Action::Reset),
            Event::AutoFit { on } => if on == s.auto_fit {
                Step::quiet(s)
            } else {
                Step::restarting(GuiState { auto_fit: on, ..s }, Action::Reset)
            },
            Event::SizeEdited { width, height, done } => if done {
                Step::restarting(GuiState { width, height, ..s }, Action::Reset)
            } else {
                Step::quiet(GuiState { width, height, ..s })
            },
            Event::StrategyChosen { strategy } => if strategy == s.strategy {
                Step::quiet(s)
            } else {
                Step::restarting(GuiState { strategy, ..s }, Action::Reset)
            },
            Event::EnvChosen { index } => if index == s.selected_env {
                Step::quiet(s)
            } else {
                Step::restarting(
                    GuiState { selected_env: index, ..s },
                    if index == 0 {
                        Action::ClearEnv
                    } else {
                        Action::LoadEnv { file: (index - 1) as usize }
                    },
                )
            },
            Event::EnvEdited { intensity, rotation } => {
                let next = GuiState { env_intensity: intensity, env_rotation: rotation, ..s };
                if self.is_changed(s.env_intensity, intensity) || self.is_changed(s.env_rotation, rotation) {
                    Step::restarting(next, Action::RebuildEnv)
                } else {
                    Step::quiet(next)
                }
            },
            Event::Exposed { exposure } => Step::quiet(GuiState { exposure, ..s }),
            Event::TonemapperChosen { operator } => Step::quiet(GuiState { tonemapper: operator, ..s }),
            Event::Navigated { nav } => if nav.changed {
                Step::restarting(GuiState { camera: self.navigated(s.camera, nav), ..s }, Action::Reset)
            } else {
                Step::quiet(s)
            },
            Event::WindowSize { size, now } => {
                let w = self.fitting_width(size.x);
                let h = self.fitting_height(size.y);
                if s.auto_fit && (w != s.width || h != s.height) {
                    Step::quiet(
                        GuiState { width: w, height: h, resize_timeout: Some((now + RESIZE_DELAY) as u64), ..s },
                    )
                } else {
                    Step::quiet(s)
                }
            },
        }
    }
}

/// A shown average.
fn shown_average<M: Arith>(math: &M, old_value: Scalar, new: Scalar) -> (r: Scalar)
    ensures
        forall|rules: ArithRules| #[trigger] rules.describe(*math) ==> r == rules.shown_average(old_value, new),
{
    if old_value == Scalar::zero() {
        new
    } else {
        math.sum(
            math.product(old_value, Scalar { key: OLD_WEIGHT_KEY }),
            math.product(new, Scalar { key: NEW_WEIGHT_KEY }),
        )
    }
}

/// A camera, moved by the pointer.
fn navigated<M: Arith>(math: &M, camera: Camera, nav: NavInput) -> (r: Camera)
    ensures
        forall|rules: ArithRules| #[trigger] rules.describe(*math) ==> r == rules.navigated(camera, nav),
{
    reveal(ArithRules::navigated);
    let mut moved = camera;
    orbit(math, &mut moved, nav.orbit.x, nav.orbit.y);
    pan(math, &mut moved, nav.pan.x, nav.pan.y);
    dolly(math, &mut moved, nav.scroll);
    moved
}

/// Whether an edit changes a number enough to count.
fn is_changed<M: Arith>(math: &M, old_value: Scalar, new: Scalar) -> (r: bool)
    ensures
        forall|rules: ArithRules| #[trigger] rules.describe(*math) ==> r == rules.is_changed(old_value, new),
{
    (Scalar { key: LEAST_CHANGE_KEY }).lt(math.difference(new, old_value).magnitude())
}

/// Where the file that is shown first stands among some: the first choice if it
/// is there, else the first.
pub fn choose_asset(names: &Vec<String>) -> (r: usize)
    ensures
        match r {
            0 => names.len() == 0 || names@[0]@ == first_choice() || (forall|i: int|
                0 <= i < names.len() ==> (#[trigger] names@[i])@ != first_choice()),
            _ => r < names.len() && names@[r as int]@ == first_choice(),
        },
        forall|i: int| 0 <= i < r ==> (#[trigger] names@[i])@ != first_choice(),
{
    let wanted = "cornell.glb".to_owned();
    let mut i: usize = 0;
    while i < names.len()
        invariant
            i <= names.len(),
            wanted@ == first_choice(),
            forall|j: int| 0 <= j < i ==> (#[trigger] names@[j])@ != first_choice(),
        decreases names.len() - i,
    {
        if names[i] == wanted {
            return i;
        }
        i = i + 1;
    }
    0
}

impl GuiState {
    /// The settings with which a window opens, on a file and the first camera of
    /// its scene, if there is one.
    pub fn new(selected_asset_index: usize, first: Option<Camera>, now: u64) -> (r: GuiState)
        ensures
            r == GuiState::first(
                selected_asset_index,
                match first {
                    Some(c) => c,
                    None => default_camera(),
                },
                now,
            ),
    {
        let camera = match first {
            Some(c) => c,
            None => Camera::default(),
        };
        GuiState {
            camera,
            width: FIRST_WIDTH,
            height: FIRST_HEIGHT,
            exposure: Scalar::one(),
            tonemapper: TonemapOperator::Aces,
            last_fps_time: now,
            paths_since_last_fps: 0,
            rays_since_last_fps: 0,
            shadow_rays_since_last_fps: 0,
            local_width: FIRST_WIDTH,
            local_height: FIRST_HEIGHT,
            rates: Rates::none(),
            last_exposure: Scalar::one(),
            last_tonemapper: TonemapOperator::Aces,
            selected_asset_index,
            auto_fit: true,
            resize_timeout: None,
            strategy: SamplingStrategy::Nirc,
            selected_camera_index: 0,
            selected_env: 0,
            env_intensity: Scalar::one(),
            env_rotation: Scalar::zero(),
            frame_count: 0,
            last_loss: Scalar::zero(),
            loss_ema: Scalar::zero(),
            rel_error: Scalar::zero(),
        }
    }

    /// Forgets what was counted, for a picture that starts anew.
    pub fn trigger_reset(&mut self)
        ensures
            *final(self) == old(self).restarted(),
    {
        self.local_width = self.width;
        self.local_height = self.height;
        self.frame_count = 0;
        self.last_loss = Scalar::zero();
        self.loss_ema = Scalar::zero();
        self.rel_error = Scalar::zero();
        self.paths_since_last_fps = 0;
        self.rays_since_last_fps = 0;
        self.shadow_rays_since_last_fps = 0;
        self.rates = Rates::none();
    }

    /// Counts what was traced.
    fn count(&mut self, paths: u64, rays: u64, shadow_rays: u64, now: u64)
        requires
            old(self).can_count(Event::Fetched { paths, rays, shadow_rays, now }),
        ensures
            *final(self) == old(self).counted(paths, rays, shadow_rays, now),
    {
        self.paths_since_last_fps = self.paths_since_last_fps + paths;
        self.rays_since_last_fps = self.rays_since_last_fps + rays;
        self.shadow_rays_since_last_fps = self.shadow_rays_since_last_fps + shadow_rays;
        self.frame_count = self.frame_count + 1;
        if now >= self.last_fps_time && now - self.last_fps_time >= RATE_PERIOD {
            self.rates = Rates {
                paths: self.paths_since_last_fps,
                rays: self.rays_since_last_fps,
                shadow_rays: self.shadow_rays_since_last_fps,
                elapsed: now - self.last_fps_time,
            };
            self.paths_since_last_fps = 0;
            self.rays_since_last_fps = 0;
            self.shadow_rays_since_last_fps = 0;
            self.last_fps_time = now;
        }
    }

    /// Whether the counters can take what an event brings.
    pub fn check_event(&self, event: Event) -> (r: bool)
        ensures
            r == self.can_count(event),
    {
        match event {
            Event::Fetched { paths, rays, shadow_rays, now } => {
                self.paths_since_last_fps.checked_add(paths).is_some() && self.rays_since_last_fps.checked_add(
                    rays,
                ).is_some() && self.shadow_rays_since_last_fps.checked_add(shadow_rays).is_some() && self.frame_count
                    < u64::MAX
            },
            Event::WindowSize { size, now } => now <= u64::MAX - RESIZE_DELAY,
            _ => true,
        }
    }

    /// Takes an event in and says what is to be done about it.
    #[verifier::rlimit(60)]
    pub fn update<M: Arith>(&mut self, math: &M, event: Event) -> (r: Action)
        requires
            old(self).can_count(event),
        ensures
            forall|rules: ArithRules| #[trigger]
                rules.describe(*math) ==> (Step { state: *final(self), action: r }) == rules.gui_step(
                    *old(self),
                    event,
                ),
            r !is Nothing && r !is LoadScene ==> *final(self) == final(self).restarted(),
    {
        match event {
            Event::Frame { now } => {
                match self.resize_timeout {
                    Some(t) => {
                        if now < t {
                            return Action::Nothing;
                        }
                        self.resize_timeout = None;
                    },
                    None => {
                        return Action::Nothing;
                    },
                }
            },
            Event::ResetKey => {},
            Event::Trained { loss } => {
                self.last_loss = loss;
                self.loss_ema = shown_average(math, self.loss_ema, loss);
                return Action::Nothing;
            },
            Event::Measured { error } => {
                self.rel_error = shown_average(math, self.rel_error, error);
                return Action::Nothing;
            },
            Event::Fetched { paths, rays, shadow_rays, now } => {
                self.count(paths, rays, shadow_rays, now);
                return Action::Nothing;
            },
            Event::SceneChosen { index } => {
                if index == self.selected_asset_index {
                    return Action::Nothing;
                }
                self.selected_asset_index = index;
                return Action::LoadScene { index };
            },
            Event::SceneLoaded { first } => {
                self.selected_camera_index = 0;
                if let Some(c) = first {
                    self.camera = c;
                }
            },
            Event::CameraChosen { index, chosen } => {
                let changed = index != self.selected_camera_index;
                self.selected_camera_index = index;
                match chosen {
                    Some(c) => {
                        if !changed {
                            return Action::Nothing;
                        }
                        self.camera = c;
                    },
                    None => {
                        return Action::Nothing;
                    },
                }
            },
            Event::CameraEdited { camera } => {
                self.camera = camera;
            },
            Event::AutoFit { on } => {
                if on == self.auto_fit {
                    return Action::Nothing;
                }
                self.auto_fit = on;
            },
            Event::SizeEdited { width, height, done } => {
                self.width = width;
                self.height = height;
                if !done {
                    return Action::Nothing;
                }
            },
            Event::StrategyChosen { strategy } => {
                if strategy == self.strategy {
                    return Action::Nothing;
                }
                self.strategy = strategy;
            },
            Event::EnvChosen { index } => {
                if index == self.selected_env {
                    return Action::Nothing;
                }
                self.selected_env = index;
                self.trigger_reset();
                if index == 0 {
                    return Action::ClearEnv;
                }
                return Action::LoadEnv { file: index - 1 };
            },
            Event::EnvEdited { intensity, rotation } => {
                let louder = is_changed(math, self.env_intensity, intensity);
                let turned = is_changed(math, self.env_rotation, rotation);
                self.env_intensity = intensity;
                self.env_rotation = rotation;
                if !louder && !turned {
                    return Action::Nothing;
                }
                self.trigger_reset();
                return Action::RebuildEnv;
            },
            Event::Exposed { exposure } => {
                self.exposure = exposure;
                return Action::Nothing;
            },
            Event::TonemapperChosen { operator } => {
                self.tonemapper = operator;
                return Action::Nothing;
            },
            Event::Navigated { nav } => {
                if !nav.changed {
                    return Action::Nothing;
                }
                self.camera = navigated(math, self.camera, nav);
            },
            Event::WindowSize { size, now } => {
                let w: usize = math.to_count(
                    math.difference(size.x, Scalar { key: PANEL_WIDTH_KEY }).max(Scalar { key: LEAST_SIDE_KEY }),
                );
                let h: usize = math.to_count(size.y.max(Scalar { key: LEAST_SIDE_KEY }));
                if self.auto_fit && (w != self.width || h != self.height) {
                    self.width = w;
                    self.height = h;
                    self.resize_timeout = Some(now + RESIZE_DELAY);
                }
                return Action::Nothing;
            },
        }
        self.trigger_reset();
        Action::Reset
    }

    /// What is to be done about the texture on screen: it is made anew where the
    /// way to show pixels has changed, and filled while there is a tracer.
    pub fn refresh_texture(&mut self, has_texture: bool, has_tracer: bool) -> (r: TextureAction)
        ensures
            ({
                let stale = differ(old(self).exposure, old(self).last_exposure) || old(self).tonemapper != old(
                    self,
                ).last_tonemapper || !has_texture;
                &&& r == (if stale {
                    TextureAction::Remake
                } else if has_tracer {
                    TextureAction::Refresh
                } else {
                    TextureAction::Keep
                })
                &&& *final(self) == (if stale {
                    GuiState {
                        last_exposure: old(self).exposure,
                        last_tonemapper: old(self).tonemapper,
                        ..*old(self)
                    }
                } else {
                    *old(self)
                })
            }),
    {
        if differ(self.exposure, self.last_exposure) || self.tonemapper != self.last_tonemapper || !has_texture {
            self.last_exposure = self.exposure;
            self.last_tonemapper = self.tonemapper;
            TextureAction::Remake
        } else if has_tracer {
            TextureAction::Refresh
        } else {
            TextureAction::Keep
        }
    }

    /// The environment, from the pixels of its file and the settings. None where
    /// pixels are missing.
    pub fn rebuild_env<M: Arith>(&self, math: &M, pixels: Vec<Color>, width: usize, height: usize) -> (r: Option<
        EnvLight,
    >)
        ensures
            r is Some <==> width * height <= pixels.len(),
            r matches Some(e) ==> {
                &&& e@.valid()
                &&& e@.pixels == pixels@
                &&& e@.width == width
                &&& e@.height == height
                &&& e@.intensity == self.env_intensity
                &&& forall|rules: ArithRules| #[trigger]
                    rules.describe(*math) ==> e@.rotation == rules.product(
                        self.env_rotation,
                        Scalar { key: DEGREE_KEY },
                    ) && rules.samples_panorama(e@.dist, pixels@, width as int, height as int)
            },
    {
        match width.checked_mul(height) {
            Some(n) => {
                if n > pixels.len() {
                    return None;
                }
            },
            None => {
                return None;
            },
        }
        let rotation = math.product(self.env_rotation, Scalar { key: DEGREE_KEY });
        Some(EnvLight::new(math, pixels, width, height, self.env_intensity, rotation))
    }
}

/// Starting the picture anew a second time changes nothing.
pub proof fn law_reset_once(s: GuiState)
    ensures
        s.restarted().restarted() == s.restarted(),
{
}

/// A window that keeps changing its size does not start the picture anew: the
/// picture follows only when the size was kept for the whole delay.
pub proof fn law_resize_waits(rules: ArithRules, s: GuiState, size: Vec2, then: u64, now: u64)
    requires
        then + RESIZE_DELAY <= u64::MAX,
        rules.gui_step(s, Event::WindowSize { size, now: then }).state != s,
        now < then + RESIZE_DELAY,
    ensures
        ({
            let resized = rules.gui_step(s, Event::WindowSize { size, now: then }).state;
            rules.gui_step(resized, Event::Frame { now }) == Step::quiet(resized)
        }),
{
}

/// Once the delay is over the picture starts anew, at the new size, and only
/// once.
pub proof fn law_resize_happens(rules: ArithRules, s: GuiState, size: Vec2, then: u64, now: u64, later: u64)
    requires
        then + RESIZE_DELAY <= now,
        rules.gui_step(s, Event::WindowSize { size, now: then }).state != s,
    ensures
        ({
            let resized = rules.gui_step(s, Event::WindowSize { size, now: then }).state;
            let restarted = rules.gui_step(resized, Event::Frame { now });
            &&& restarted.action is Reset
            &&& restarted.state.local_width == rules.fitting_width(size.x)
            &&& restarted.state.local_height == rules.fitting_height(size.y)
            &&& rules.gui_step(restarted.state, Event::Frame { now: later }) == Step::quiet(restarted.state)
        }),
{
}

/// Whatever changes what is rendered starts the picture anew: a step that asks for
/// nothing keeps the camera and the estimator, and the size being rendered.
pub proof fn law_quiet_steps_keep_the_picture(rules: ArithRules, s: GuiState, event: Event)
    requires
        s.can_count(event),
        rules.gui_step(s, event).action is Nothing,
    ensures
        ({
            let t = rules.gui_step(s, event).state;
            &&& t.camera == s.camera
            &&& t.strategy == s.strategy
            &&& t.local_width == s.local_width
            &&& t.local_height == s.local_height
            &&& t.selected_env == s.selected_env
        }),
{
}

/// No ray is lost: what is counted either waits or goes into the rate.
pub proof fn law_rays_are_counted(s: GuiState, paths: u64, rays: u64, shadow_rays: u64, now: u64)
    requires
        s.can_count(Event::Fetched { paths, rays, shadow_rays, now }),
    ensures
        ({
            let t = s.counted(paths, rays, shadow_rays, now);
            if now - s.last_fps_time >= RATE_PERIOD {
                &&& t.rates.paths == s.paths_since_last_fps + paths && t.paths_since_last_fps == 0
                &&& t.rates.rays == s.rays_since_last_fps + rays && t.rays_since_last_fps == 0
                &&& t.rates.shadow_rays == s.shadow_rays_since_last_fps + shadow_rays && t.shadow_rays_since_last_fps
                    == 0
                &&& s.last_fps_time + t.rates.elapsed == now && t.last_fps_time == now
            } else {
                &&& t.paths_since_last_fps == s.paths_since_last_fps + paths && t.rates == s.rates
                &&& t.rays_since_last_fps == s.rays_since_last_fps + rays
                &&& t.shadow_rays_since_last_fps == s.shadow_rays_since_last_fps + shadow_rays
                &&& t.last_fps_time == s.last_fps_time
            }
        }),
{
}

/// Every setting follows its own event, and no other touches it.
pub proof fn law_settings_follow_their_events(rules: ArithRules, s: GuiState, event: Event)
    ensures
        ({
            let t = rules.gui_step(s, event).state;
            &&& t.exposure == (match event {
                Event::Exposed { exposure } => exposure,
                _ => s.exposure,
            })
            &&& t.tonemapper == (match event {
                Event::TonemapperChosen { operator } => operator,
                _ => s.tonemapper,
            })
            &&& t.strategy == (match event {
                Event::StrategyChosen { strategy } => strategy,
                _ => s.strategy,
            })
            &&& t.auto_fit == (match event {
                Event::AutoFit { on } => on,
                _ => s.auto_fit,
            })
            &&& t.selected_asset_index == (match event {
                Event::SceneChosen { index } => index,
                _ => s.selected_asset_index,
            })
            &&& t.selected_camera_index == (match event {
                Event::CameraChosen { index, chosen } => index,
                Event::SceneLoaded { first } => 0,
                _ => s.selected_camera_index,
            })
            &&& t.selected_env == (match event {
                Event::EnvChosen { index } => index,
                _ => s.selected_env,
            })
            &&& t.env_intensity == (match event {
                Event::EnvEdited { intensity, rotation } => intensity,
                _ => s.env_intensity,
            })
            &&& t.env_rotation == (match event {
                Event::EnvEdited { intensity, rotation } => rotation,
                _ => s.env_rotation,
            })
        }),
{
}

/// A scene is loaded when it is chosen, and an environment when it is: the file
/// before the chosen place, as the first place stands for none.
pub proof fn law_choices_are_loaded(rules: ArithRules, s: GuiState, event: Event)
    ensures
        ({
            let step = rules.gui_step(s, event);
            &&& step.action is LoadScene <==> step.state.selected_asset_index != s.selected_asset_index
            &&& step.action matches Action::LoadScene { index } ==> index == step.state.selected_asset_index
            &&& (step.action is LoadEnv || step.action is ClearEnv) <==> step.state.selected_env != s.selected_env
            &&& step.action is ClearEnv ==> step.state.selected_env == 0
            &&& step.action matches Action::LoadEnv { file } ==> file + 1 == step.state.selected_env
            &&& step.action is RebuildEnv ==> event is EnvEdited
        }),
{
}

/// Whenever the picture starts anew, it has the size that was set, and nothing of
/// the picture before is counted.
pub proof fn law_new_pictures_start_from_nothing(rules: ArithRules, s: GuiState, event: Event)
    requires
        s.can_count(event),
    ensures
        ({
            let step = rules.gui_step(s, event);
            let t = step.state;
            !(step.action is Nothing || step.action is LoadScene) ==> {
                &&& t.local_width == t.width && t.local_height == t.height
                &&& t.frame_count == 0
                &&& t.rates.paths == 0 && t.rates.rays == 0 && t.rates.shadow_rays == 0
                &&& t.paths_since_last_fps == 0 && t.rays_since_last_fps == 0 && t.shadow_rays_since_last_fps == 0
                &&& t.last_loss == Scalar::zero() && t.loss_ema == Scalar::zero() && t.rel_error == Scalar::zero()
            }
        }),
{
}

/// A scene is seen through its first camera, a chosen camera is looked through, and
/// a choice that was made already changes nothing.
pub proof fn law_cameras_are_looked_through(rules: ArithRules, s: GuiState, c: Camera, index: usize)
    ensures
        rules.gui_step(s, Event::SceneLoaded { first: Some(c) }).state.camera == c,
        rules.gui_step(s, Event::SceneLoaded { first: None }).state.camera == s.camera,
        index != s.selected_camera_index ==> rules.gui_step(
            s,
            Event::CameraChosen { index, chosen: Some(c) },
        ).state.camera == c,
        rules.gui_step(s, Event::CameraChosen { index: s.selected_camera_index, chosen: Some(c) }) == Step::quiet(s),
        rules.gui_step(s, Event::CameraEdited { camera: c }).state.camera == c,
{
}

/// A shown average starts with the first value, keeps more than half of what it was
/// when nothing comes in, and grows with what comes in.
pub proof fn law_average_follows_slowly(rules: ArithRules, old_value: Scalar, less: Scalar, more: Scalar)
    requires
        rules.keeps_zeros(),
        rules.orders_products(),
        rules.orders_sums(),
        old_value.is_finite(),
        Scalar::zero().lt(old_value),
        less.is_finite(),
        more.is_finite(),
        less.le(more),
        rules.product(old_value, Scalar { key: OLD_WEIGHT_KEY }).is_finite(),
        rules.product(less, Scalar { key: NEW_WEIGHT_KEY }).is_finite(),
        rules.product(more, Scalar { key: NEW_WEIGHT_KEY }).is_finite(),
    ensures
        rules.shown_average(Scalar::zero(), more) == more,
        rules.product(old_value, Scalar { key: 0x3f00_0000 }).le(rules.shown_average(old_value, Scalar::zero())),
        rules.shown_average(old_value, less).le(rules.shown_average(old_value, more)),
{
    assert(rules.product(Scalar::zero(), Scalar { key: NEW_WEIGHT_KEY }) == Scalar::zero());
    assert(rules.product(less, Scalar { key: NEW_WEIGHT_KEY }).le(
        rules.product(more, Scalar { key: NEW_WEIGHT_KEY }),
    ));
}

/// A number that was not edited has not changed, and a change counts both ways, where
/// differences turn their sign.
pub proof fn law_changes_count_both_ways(rules: ArithRules, a: Scalar, b: Scalar)
    requires
        rules.keeps_selves(),
        a.is_finite(),
        rules.difference(a, b).magnitude() == rules.difference(b, a).magnitude(),
    ensures
        !rules.is_changed(a, a),
        rules.is_changed(a, b) == rules.is_changed(b, a),
{
}

/// A change counts no less when it is larger.
pub proof fn law_larger_changes_count(rules: ArithRules, from: Scalar, near: Scalar, far: Scalar)
    requires
        rules.orders_sums(),
        from.is_finite(),
        near.is_finite(),
        far.is_finite(),
        near.le(far),
        Scalar::zero().le(rules.difference(near, from)),
        rules.is_changed(from, near),
    ensures
        rules.is_changed(from, far),
{
    assert(rules.difference(near, from).le(rules.difference(far, from)));
}

/// The panel stands beside the picture and not below it: a window that is wider by
/// the panel has a picture as wide as a window of that height has it high. Larger
/// windows have no smaller pictures, where counts keep the order of numbers.
pub proof fn law_picture_leaves_room_for_the_panel(rules: ArithRules, side: Scalar, less: Scalar, more: Scalar)
    requires
        rules.difference(rules.sum(side, Scalar { key: PANEL_WIDTH_KEY }), Scalar { key: PANEL_WIDTH_KEY }) == side,
        rules.orders_sums(),
        less.is_finite(),
        more.is_finite(),
        less.le(more),
        forall|a: Scalar, b: Scalar|
            #![trigger rules.to_count(a), rules.to_count(b)]
            Scalar::zero().le(a) && a.le(b) ==> rules.to_count(a) <= rules.to_count(b),
    ensures
        rules.fitting_width(rules.sum(side, Scalar { key: PANEL_WIDTH_KEY })) == rules.fitting_height(side),
        rules.fitting_width(less) <= rules.fitting_width(more),
        rules.fitting_height(less) <= rules.fitting_height(more),
        rules.to_count(Scalar { key: LEAST_SIDE_KEY }) <= rules.fitting_width(less),
        rules.to_count(Scalar { key: LEAST_SIDE_KEY }) <= rules.fitting_height(less),
{
    let panel = Scalar { key: PANEL_WIDTH_KEY };
    assert(rules.difference(less, panel).le(rules.difference(more, panel)));
}

impl ArithRules {
    /// Whether a camera that is turned, shifted and zoomed by nothing stays where it is,
    /// and rounding does not move it either.
    pub open spec fn keeps_still(self, c: Camera) -> bool {
        &&& self.orbited(c, Scalar::zero(), Scalar::zero()) == c
        &&& self.panned(c, Scalar::zero(), Scalar::zero()) == c
        &&& self.dollied(c, Scalar::zero()) == c
    }
}

/// A pointer that turns, shifts and zooms at once does so one after the other: it
/// first turns the camera, then shifts it, then zooms. Each is as when it is done
/// alone, wherever doing nothing of the others keeps the camera.
pub proof fn law_navigation_goes_step_by_step(rules: ArithRules, camera: Camera, nav: NavInput)
    requires
        rules.keeps_still(camera),
        rules.keeps_still(rules.orbited(camera, nav.orbit.x, nav.orbit.y)),
        rules.keeps_still(rules.panned(camera, nav.pan.x, nav.pan.y)),
        rules.keeps_still(rules.panned(rules.orbited(camera, nav.orbit.x, nav.orbit.y), nav.pan.x, nav.pan.y)),
    ensures
        ({
            let none = Vec2 { x: Scalar::zero(), y: Scalar::zero() };
            let turn = NavInput { pan: none, scroll: Scalar::zero(), ..nav };
            let shift = NavInput { orbit: none, scroll: Scalar::zero(), ..nav };
            let zoom = NavInput { orbit: none, pan: none, ..nav };
            &&& rules.navigated(camera, turn) == rules.orbited(camera, nav.orbit.x, nav.orbit.y)
            &&& rules.navigated(camera, shift) == rules.panned(camera, nav.pan.x, nav.pan.y)
            &&& rules.navigated(camera, zoom) == rules.dollied(camera, nav.scroll)
            &&& rules.navigated(camera, nav) == rules.navigated(
                rules.navigated(rules.navigated(camera, turn), shift),
                zoom,
            )
        }),
{
    reveal(ArithRules::navigated);
}

/// A window opens on a picture that was just started: nothing is counted or learned
/// yet, so starting it anew changes nothing; and what is on screen was made with the
/// settings there are.
pub proof fn law_window_opens_on_a_new_picture(selected_asset_index: usize, camera: Camera, now: u64)
    ensures
        ({
            let s = GuiState::first(selected_asset_index, camera, now);
            &&& s.restarted() == s
            &&& s.last_exposure == s.exposure
            &&& s.last_tonemapper == s.tonemapper
            &&& s.camera == camera
            &&& s.selected_asset_index == selected_asset_index
            &&& s.last_fps_time == now
            &&& s.resize_timeout is None
            &&& s.selected_env == 0
        }),
{
}

} // verus!
