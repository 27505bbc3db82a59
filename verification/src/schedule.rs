//! Which pixels a worker renders, and when it stops, reports and trains.
use vstd::arithmetic::div_mod::{lemma_div_is_ordered, lemma_fundamental_div_mod, lemma_mod_bound};
use vstd::prelude::*;

verus! {

/// Side of a tile in pixels.
pub const TILE_SIZE: usize = 128;

/// Number of paths after which a worker looks whether to stop.
pub const BATCH_SIZE: u64 = 256;

/// One out of every so many rendered pixels triggers a dedicated training path.
pub const TRAIN_PIXEL_STRIDE: usize = 64;

/// Workers refresh their cached network this often (in pixels).
pub const NIRC_REFRESH_STRIDE: usize = 512;

/// Number of tiles along a side.
pub open spec fn tiles_along(n: int) -> int {
    (n + TILE_SIZE - 1) / TILE_SIZE as int
}

/// Number of tiles of a picture.
pub open spec fn tile_count(width: int, height: int) -> int {
    tiles_along(width) * tiles_along(height)
}

/// The first tile of a worker: tiles are dealt out in runs, one more to each of
/// the first workers where they do not come out even.
pub open spec fn first_tile(total: int, workers: int, worker: int) -> int {
    let base = total / workers;
    let extra = total % workers;
    worker * base + (if worker < extra {
        worker
    } else {
        extra
    })
}

/// A rectangle of pixels, from its first to beyond its last column and row.
#[derive(Clone, Copy, PartialEq, Eq, Structural, Debug)]
pub struct Tile {
    pub start_x: usize,
    pub end_x: usize,
    pub start_y: usize,
    pub end_y: usize,
}

impl Tile {
    /// Whether a pixel lies in the tile.
    pub open spec fn holds(self, x: int, y: int) -> bool {
        self.start_x <= x < self.end_x && self.start_y <= y < self.end_y
    }
}

/// The lesser of two numbers.
pub open spec fn at_most(a: int, b: int) -> int {
    if a < b {
        a
    } else {
        b
    }
}

/// The tile at an index, counted row by row; those at the right and lower edge
/// end with the picture.
pub open spec fn tile_at(width: int, height: int, index: int) -> Tile {
    let bx = index % tiles_along(width);
    let by = index / tiles_along(width);
    Tile {
        start_x: (bx * TILE_SIZE) as usize,
        end_x: at_most(bx * TILE_SIZE + TILE_SIZE, width) as usize,
        start_y: (by * TILE_SIZE) as usize,
        end_y: at_most(by * TILE_SIZE + TILE_SIZE, height) as usize,
    }
}

/// The tile of a pixel.
pub open spec fn tile_of(width: int, x: int, y: int) -> int {
    (y / TILE_SIZE as int) * tiles_along(width) + x / TILE_SIZE as int
}

/// Workers take all tiles, in runs one after the other: the first starts at the
/// first tile, each next where the one before ends, and the last ends at the
/// last tile. No worker has two tiles more than another.
pub proof fn law_workers_share_all_tiles(total: int, workers: int, worker: int)
    requires
        total >= 0,
        workers > 0,
        0 <= worker < workers,
    ensures
        first_tile(total, workers, 0) == 0,
        first_tile(total, workers, workers) == total,
        total / workers <= first_tile(total, workers, worker + 1) - first_tile(total, workers, worker) <= total
            / workers + 1,
{
    let base = total / workers;
    let extra = total % workers;
    lemma_fundamental_div_mod(total, workers);
    lemma_mod_bound(total, workers);
    assert((worker + 1) * base == worker * base + base) by (nonlinear_arith);
    assert(workers * base == base * workers) by (nonlinear_arith);
    assert(0 * base == 0);
    assert(base >= 0) by {
        lemma_div_is_ordered(0, total, workers);
    }
}

/// A pixel of a picture lies in its tile, and in no other.
pub proof fn law_pixel_in_one_tile(width: int, height: int, x: int, y: int, index: int)
    requires
        0 <= x < width <= usize::MAX,
        0 <= y < height <= usize::MAX,
        0 <= index < tile_count(width, height),
    ensures
        0 <= tile_of(width, x, y) < tile_count(width, height),
        tile_at(width, height, index).holds(x, y) <==> index == tile_of(width, x, y),
{
    let w = tiles_along(width);
    let h = tiles_along(height);
    let bx = index % w;
    let by = index / w;
    let px = x / TILE_SIZE as int;
    let py = y / TILE_SIZE as int;
    lemma_fundamental_div_mod(index, w);
    lemma_mod_bound(index, w);
    assert(0 <= px < w && 0 <= py < h);
    assert(0 <= py * w + px < w * h) by (nonlinear_arith)
        requires
            0 <= px < w,
            0 <= py < h,
    ;
    assert(0 <= by < h) by (nonlinear_arith)
        requires
            index == w * by + bx,
            0 <= bx < w,
            0 <= index < w * h,
    ;
    assert(bx * TILE_SIZE <= width - 1 && by * TILE_SIZE <= height - 1);
    assert(w * by == by * w) by (nonlinear_arith);
    if index == py * w + px {
        assert(by == py && bx == px) by (nonlinear_arith)
            requires
                index == w * by + bx,
                index == py * w + px,
                0 <= bx < w,
                0 <= px < w,
        ;
    }
}

proof fn lemma_first_tile_ordered(total: int, workers: int, a: int, b: int)
    requires
        total >= 0,
        workers > 0,
        0 <= a <= b <= workers,
    ensures
        first_tile(total, workers, a) <= first_tile(total, workers, b),
    decreases b - a,
{
    if a < b {
        lemma_first_tile_ordered(total, workers, a, b - 1);
        law_workers_share_all_tiles(total, workers, b - 1);
        lemma_div_is_ordered(0, total, workers);
    }
}

/// Whether a tile is a worker's.
pub open spec fn is_tile_of(total: int, workers: int, worker: int, tile: int) -> bool {
    first_tile(total, workers, worker) <= tile < first_tile(total, workers, worker + 1)
}

proof fn lemma_tile_has_worker(total: int, workers: int, tile: int, n: int) -> (worker: int)
    requires
        total >= 0,
        workers > 0,
        0 < n <= workers,
        0 <= tile < first_tile(total, workers, n),
    ensures
        0 <= worker < n,
        is_tile_of(total, workers, worker, tile),
    decreases n,
{
    if tile >= first_tile(total, workers, n - 1) {
        n - 1
    } else {
        law_workers_share_all_tiles(total, workers, 0);
        lemma_tile_has_worker(total, workers, tile, n - 1)
    }
}

/// The tiles of a worker are tiles of the picture.
pub proof fn lemma_runs_in_range(total: int, workers: int, worker: int)
    requires
        total >= 0,
        workers > 0,
        0 <= worker < workers,
    ensures
        0 <= first_tile(total, workers, worker) <= first_tile(total, workers, worker + 1) <= total,
{
    law_workers_share_all_tiles(total, workers, worker);
    lemma_first_tile_ordered(total, workers, 0, worker);
    lemma_first_tile_ordered(total, workers, worker, worker + 1);
    lemma_first_tile_ordered(total, workers, worker + 1, workers);
}

/// Every tile is the tile of one worker, so that no two workers ever write the
/// same pixel.
pub proof fn law_tile_has_one_worker(total: int, workers: int, tile: int)
    requires
        workers > 0,
        0 <= tile < total,
    ensures
        exists|w: int| 0 <= w < workers && #[trigger] is_tile_of(total, workers, w, tile),
        forall|v: int, w: int|
            0 <= v < workers && 0 <= w < workers && #[trigger] is_tile_of(total, workers, v, tile)
                && #[trigger] is_tile_of(total, workers, w, tile) ==> v == w,
{
    law_workers_share_all_tiles(total, workers, 0);
    let w = lemma_tile_has_worker(total, workers, tile, workers);
    assert forall|v: int, w: int|
        0 <= v < workers && 0 <= w < workers && #[trigger] is_tile_of(total, workers, v, tile)
            && #[trigger] is_tile_of(total, workers, w, tile) implies v == w by {
        if v < w {
            lemma_first_tile_ordered(total, workers, v + 1, w);
        } else if w < v {
            lemma_first_tile_ordered(total, workers, w + 1, v);
        }
    }
}

/// Whether the pixels of a picture can be counted.
pub open spec fn is_picture(width: int, height: int) -> bool {
    &&& 0 <= width <= usize::MAX - TILE_SIZE
    &&& 0 <= height <= usize::MAX - TILE_SIZE
    &&& width * height < usize::MAX
}

/// Whether the pixels of a picture can be counted.
pub fn check_picture(width: usize, height: usize) -> (r: bool)
    ensures
        r == is_picture(width as int, height as int),
{
    width <= usize::MAX - TILE_SIZE && height <= usize::MAX - TILE_SIZE && match width.checked_mul(height) {
        Some(n) => n < usize::MAX,
        None => false,
    }
}

proof fn lemma_tile_count_fits(width: int, height: int)
    requires
        is_picture(width, height),
    ensures
        0 <= tile_count(width, height) <= width * height,
        0 <= tiles_along(width) <= width,
        0 <= tiles_along(height) <= height,
{
    let w = tiles_along(width);
    let h = tiles_along(height);
    assert(0 <= w <= width && 0 <= h <= height);
    assert(0 <= w * h <= width * height) by (nonlinear_arith)
        requires
            0 <= w <= width,
            0 <= h <= height,
    ;
}

/// The tiles of a worker, from the first to beyond the last.
pub fn worker_tiles(width: usize, height: usize, workers: usize, worker: usize) -> (r: (usize, usize))
    requires
        is_picture(width as int, height as int),
        worker < workers,
    ensures
        r.0 == first_tile(tile_count(width as int, height as int), workers as int, worker as int),
        r.1 == first_tile(tile_count(width as int, height as int), workers as int, worker + 1),
        r.0 <= r.1 <= tile_count(width as int, height as int),
{
    let ghost total = tile_count(width as int, height as int);
    proof {
        lemma_tile_count_fits(width as int, height as int);
        law_workers_share_all_tiles(total, workers as int, worker as int);
        lemma_first_tile_ordered(total, workers as int, worker + 1, workers as int);
        lemma_first_tile_ordered(total, workers as int, 0, worker as int);
        lemma_fundamental_div_mod(total, workers as int);
        lemma_mod_bound(total, workers as int);
        lemma_div_is_ordered(0, total, workers as int);
    }
    let blocks_x: usize = (width + TILE_SIZE - 1) / TILE_SIZE;
    let blocks_y: usize = (height + TILE_SIZE - 1) / TILE_SIZE;
    let total_blocks: usize = blocks_x * blocks_y;
    let base_count: usize = total_blocks / workers;
    let remainder: usize = total_blocks % workers;
    proof {
        let t = worker as int;
        let b = base_count as int;
        let e = remainder as int;
        assert(t * (b + 1) == t * b + t) by (nonlinear_arith);
        assert((t + 1) * b == t * b + b) by (nonlinear_arith);
        assert(e * (b + 1) + (t - e) * b == t * b + e) by (nonlinear_arith);
        assert(0 <= (t - e) * b <= t * b || t < e) by (nonlinear_arith)
            requires
                b >= 0,
                e >= 0,
        ;
        assert(0 <= e * (b + 1)) by (nonlinear_arith)
            requires
                b >= 0,
                e >= 0,
        ;
    }
    if worker < remainder {
        let start: usize = worker * (base_count + 1);
        (start, start + base_count + 1)
    } else {
        let start: usize = remainder * (base_count + 1) + (worker - remainder) * base_count;
        (start, start + base_count)
    }
}

/// The tile at an index.
pub fn tile(width: usize, height: usize, index: usize) -> (r: Tile)
    requires
        is_picture(width as int, height as int),
        index < tile_count(width as int, height as int),
    ensures
        r == tile_at(width as int, height as int, index as int),
        r.start_x < r.end_x <= width,
        r.start_y < r.end_y <= height,
{
    let ghost w = tiles_along(width as int);
    let ghost h = tiles_along(height as int);
    proof {
        lemma_tile_count_fits(width as int, height as int);
        assert(w > 0) by (nonlinear_arith)
            requires
                w >= 0,
                h >= 0,
                0 < w * h,
        ;
        lemma_fundamental_div_mod(index as int, w);
        lemma_mod_bound(index as int, w);
        let bx = index as int % w;
        let by = index as int / w;
        assert(0 <= by < h) by (nonlinear_arith)
            requires
                index == w * by + bx,
                0 <= bx < w,
                0 <= index < w * h,
        ;
        assert(bx * TILE_SIZE <= width - 1 && by * TILE_SIZE <= height - 1);
    }
    let blocks_x: usize = (width + TILE_SIZE - 1) / TILE_SIZE;
    let bx: usize = index % blocks_x;
    let by: usize = index / blocks_x;
    let start_x: usize = bx * TILE_SIZE;
    let start_y: usize = by * TILE_SIZE;
    let end_x: usize = if start_x + TILE_SIZE < width { start_x + TILE_SIZE } else { width };
    let end_y: usize = if start_y + TILE_SIZE < height { start_y + TILE_SIZE } else { height };
    Tile { start_x, end_x, start_y, end_y }
}

/// What a worker's pass is waiting for.
#[derive(Clone, Copy, PartialEq, Eq, Structural, Debug)]
pub enum Phase {
    /// To start.
    Start,
    /// To hear whether to stop, a batch being full.
    Batch,
    /// To have reported a batch.
    Reported,
    /// To have refreshed its network.
    Refreshed,
    /// To hear what a pixel's path cost.
    Traced,
    /// To have trained on a pixel.
    Trained,
    /// To hear whether to stop, a row being done.
    Row,
    /// To have reported its last paths.
    Last,
    /// Nothing more.
    Done,
}

/// What a worker has to do next.
#[derive(Clone, Copy, PartialEq, Eq, Structural, Debug)]
pub enum Action {
    /// Look whether the scene has changed or the renderer has stopped.
    Look,
    /// Add to the totals.
    Report { rays: u64, real_rays: u64, shadow_rays: u64 },
    /// Take over a newer network, if there is one.
    Refresh,
    /// Trace a path through a pixel.
    Sample { x: usize, y: usize, index: usize },
    /// Trace a training path through a pixel.
    Train { x: usize, y: usize },
    /// Nothing: the pass is over.
    End,
}

/// What came of an action: whether to stop, and how many closest-hit and shadow
/// rays a path took.
#[derive(Clone, Copy, PartialEq, Eq, Structural, Debug)]
pub struct Outcome {
    pub stop: bool,
    pub real_rays: u64,
    pub shadow_rays: u64,
}

/// A worker's way through its tiles.
#[derive(Clone, Copy, PartialEq, Eq, Structural, Debug)]
pub struct Pass {
    pub width: usize,
    pub height: usize,
    /// The tile at hand, and the one to stop before.
    pub index: usize,
    pub end: usize,
    pub tile: Tile,
    pub x: usize,
    pub y: usize,
    pub rays: u64,
    pub real_rays: u64,
    pub shadow_rays: u64,
    /// Pixels entered since the last refresh.
    pub pixels: usize,
    pub phase: Phase,
}

impl Pass {
    /// Whether the pass knows where it is.
    pub open spec fn is_sound(self) -> bool {
        &&& is_picture(self.width as int, self.height as int)
        &&& self.end <= tile_count(self.width as int, self.height as int)
        &&& self.pixels < NIRC_REFRESH_STRIDE
        &&& self.rays <= BATCH_SIZE
        &&& !(self.phase is Start || self.phase is Last || self.phase is Done) ==> {
            &&& self.index < self.end
            &&& self.tile == tile_at(self.width as int, self.height as int, self.index as int)
            &&& self.tile.holds(self.x as int, self.y as int)
            &&& self.tile.end_x <= self.width
            &&& self.tile.end_y <= self.height
        }
        &&& self.phase is Start ==> self.index <= self.end
        &&& self.phase is Row ==> self.x + 1 == self.tile.end_x
        &&& (self.phase is Traced || self.phase is Refreshed || self.phase is Reported) ==> self.rays < BATCH_SIZE
    }

    /// Paths, closest-hit rays and shadow rays that were not reported yet.
    pub open spec fn unreported(self) -> (int, int, int) {
        (self.rays as int, self.real_rays as int, self.shadow_rays as int)
    }

    /// Whether what came of an action can be counted.
    pub open spec fn can_count(self, e: Outcome) -> bool {
        self.phase is Traced ==> self.real_rays + e.real_rays <= u64::MAX && self.shadow_rays + e.shadow_rays
            <= u64::MAX
    }

    /// The pixels of a row of the tile from a column on.
    pub open spec fn row_from(self, x: int) -> Seq<(int, int)> {
        Seq::new((self.tile.end_x - x) as nat, |i: int| (x + i, self.y as int))
    }

    /// The pixels that are still to be sampled, in order: row by row, tile by tile.
    pub open spec fn remaining(self) -> Seq<(int, int)> {
        if self.phase is Last || self.phase is Done {
            Seq::empty()
        } else if self.phase is Start {
            tiles_pixels(self.width as int, self.height as int, self.index as int, self.end as int)
        } else {
            let from = if self.phase is Trained || self.phase is Row {
                self.x + 1
            } else {
                self.x as int
            };
            self.row_from(from) + rows_pixels(self.tile, self.y + 1) + tiles_pixels(
                self.width as int,
                self.height as int,
                self.index + 1,
                self.end as int,
            )
        }
    }
}

/// The pixels of a tile from a row on, row by row.
pub open spec fn rows_pixels(tile: Tile, y: int) -> Seq<(int, int)>
    decreases tile.end_y - y,
{
    if y >= tile.end_y {
        Seq::empty()
    } else {
        Seq::new((tile.end_x - tile.start_x) as nat, |i: int| (tile.start_x + i, y)) + rows_pixels(tile, y + 1)
    }
}

/// The pixels of some tiles, tile by tile.
pub open spec fn tiles_pixels(width: int, height: int, index: int, end: int) -> Seq<(int, int)>
    decreases end - index,
{
    if index >= end {
        Seq::empty()
    } else {
        let t = tile_at(width, height, index);
        rows_pixels(t, t.start_y as int) + tiles_pixels(width, height, index + 1, end)
    }
}

/// What an action reports.
pub open spec fn reported(a: Action) -> (int, int, int) {
    match a {
        Action::Report { rays, real_rays, shadow_rays } => (rays as int, real_rays as int, shadow_rays as int),
        _ => (0, 0, 0),
    }
}

/// What a pass counts of what came of an action.
pub open spec fn traced(phase: Phase, e: Outcome) -> (int, int, int) {
    if phase is Traced {
        (1, e.real_rays as int, e.shadow_rays as int)
    } else {
        (0, 0, 0)
    }
}

impl Pass {
    /// The end of a pass: what was not reported is, and then it is over.
    pub open spec fn finished(self) -> (Pass, Action) {
        if self.rays > 0 {
            (
                Pass { rays: 0, real_rays: 0, shadow_rays: 0, phase: Phase::Last, ..self },
                Action::Report { rays: self.rays, real_rays: self.real_rays, shadow_rays: self.shadow_rays },
            )
        } else {
            (Pass { phase: Phase::Done, ..self }, Action::End)
        }
    }

    /// The sampling of the pixel at hand.
    pub open spec fn sampling(self) -> (Pass, Action) {
        (
            Pass { phase: Phase::Traced, ..self },
            Action::Sample { x: self.x, y: self.y, index: (self.y * self.width + self.x) as usize },
        )
    }

    /// The entry of a pixel: at every so many pixels the network is refreshed.
    pub open spec fn entering(self) -> (Pass, Action) {
        let p = Pass { pixels: (self.pixels + 1) as usize % NIRC_REFRESH_STRIDE, ..self };
        if p.pixels == 0 {
            (Pass { phase: Phase::Refreshed, ..p }, Action::Refresh)
        } else {
            p.sampling()
        }
    }

    /// The start of a pixel: after a full batch, a look whether to stop.
    pub open spec fn starting(self) -> (Pass, Action) {
        if self.rays >= BATCH_SIZE {
            (Pass { phase: Phase::Batch, ..self }, Action::Look)
        } else {
            self.entering()
        }
    }

    /// The way on after a pixel: to the next of the row, or to a look whether to
    /// stop at the row's end.
    pub open spec fn advancing(self) -> (Pass, Action) {
        if self.x + 1 < self.tile.end_x {
            (Pass { x: (self.x + 1) as usize, ..self }).starting()
        } else {
            (Pass { phase: Phase::Row, ..self }, Action::Look)
        }
    }

    /// The start of a tile, or the end of the pass after the last.
    pub open spec fn opening(self) -> (Pass, Action) {
        if self.index < self.end {
            let t = tile_at(self.width as int, self.height as int, self.index as int);
            (Pass { tile: t, x: t.start_x, y: t.start_y, ..self }).starting()
        } else {
            self.finished()
        }
    }

    /// The way on after a row: to the next of the tile, or to the next tile.
    pub open spec fn descending(self) -> (Pass, Action) {
        if self.y + 1 < self.tile.end_y {
            (Pass { x: self.tile.start_x, y: (self.y + 1) as usize, ..self }).starting()
        } else {
            (Pass { index: (self.index + 1) as usize, ..self }).opening()
        }
    }

    /// What the pass does next, given what came of the action before.
    pub open spec fn next(self, e: Outcome) -> (Pass, Action) {
        match self.phase {
            Phase::Start => self.opening(),
            Phase::Batch => if e.stop {
                self.finished()
            } else {
                (
                    Pass { rays: 0, real_rays: 0, shadow_rays: 0, phase: Phase::Reported, ..self },
                    Action::Report { rays: self.rays, real_rays: self.real_rays, shadow_rays: self.shadow_rays },
                )
            },
            Phase::Reported => self.entering(),
            Phase::Refreshed => self.sampling(),
            Phase::Traced => {
                let p = Pass {
                    rays: (self.rays + 1) as u64,
                    real_rays: (self.real_rays + e.real_rays) as u64,
                    shadow_rays: (self.shadow_rays + e.shadow_rays) as u64,
                    ..self
                };
                if p.pixels % TRAIN_PIXEL_STRIDE == 0 {
                    (Pass { phase: Phase::Trained, ..p }, Action::Train { x: p.x, y: p.y })
                } else {
                    p.advancing()
                }
            },
            Phase::Trained => self.advancing(),
            Phase::Row => if e.stop {
                self.finished()
            } else {
                self.descending()
            },
            Phase::Last => (Pass { phase: Phase::Done, ..self }, Action::End),
            Phase::Done => (self, Action::End),
        }
    }
}

/// Whether a pass stays sound, loses no ray and skips no pixel from one state to
/// the next, by way of an action.
pub open spec fn goes_on(p: Pass, counted: (int, int, int), left: Seq<(int, int)>, q: (Pass, Action)) -> bool {
    &&& q.0.is_sound()
    &&& q.0.unreported().0 + reported(q.1).0 == counted.0
    &&& q.0.unreported().1 + reported(q.1).1 == counted.1
    &&& q.0.unreported().2 + reported(q.1).2 == counted.2
    &&& q.0.remaining() == left
    &&& q.1 matches Action::Sample { x, y, index } ==> {
        &&& q.0.phase is Traced
        &&& left.len() > 0
        &&& left[0] == (x as int, y as int)
        &&& index == y * p.width + x
        &&& x < p.width
        &&& y < p.height
    }
    &&& q.1 is End ==> q.0.phase is Done
    &&& q.0.width == p.width && q.0.height == p.height
}

/// Where the pixel at hand lies.
spec fn is_at_pixel(p: Pass) -> bool {
    &&& is_picture(p.width as int, p.height as int)
    &&& p.end <= tile_count(p.width as int, p.height as int)
    &&& p.pixels < NIRC_REFRESH_STRIDE
    &&& p.rays <= BATCH_SIZE
    &&& p.index < p.end
    &&& p.tile == tile_at(p.width as int, p.height as int, p.index as int)
    &&& p.tile.holds(p.x as int, p.y as int)
    &&& p.tile.end_x <= p.width
    &&& p.tile.end_y <= p.height
}

spec fn from_pixel(p: Pass) -> Seq<(int, int)> {
    p.row_from(p.x as int) + rows_pixels(p.tile, p.y + 1) + tiles_pixels(
        p.width as int,
        p.height as int,
        p.index + 1,
        p.end as int,
    )
}

proof fn lemma_index_fits(p: Pass)
    requires
        is_at_pixel(p),
    ensures
        p.y * p.width + p.x < p.width * p.height,
        p.y * p.width <= p.y * p.width + p.x,
        0 <= p.y * p.width,
{
    assert(p.y * p.width + p.x < p.width * p.height && 0 <= p.y * p.width) by (nonlinear_arith)
        requires
            p.x < p.width,
            p.y < p.height,
    ;
}

proof fn lemma_starting(p: Pass)
    requires
        is_at_pixel(p),
    ensures
        goes_on(p, p.unreported(), from_pixel(p), p.starting()),
{
    lemma_index_fits(p);
    let q = p.starting();
    let r = from_pixel(p);
    assert(r[0] == (p.x as int, p.y as int));
    assert(q.0.remaining() =~= r);
}

proof fn lemma_entering(p: Pass)
    requires
        is_at_pixel(p),
        p.rays < BATCH_SIZE,
    ensures
        goes_on(p, p.unreported(), from_pixel(p), p.entering()),
{
    lemma_index_fits(p);
    let q = p.entering();
    let r = from_pixel(p);
    assert(r[0] == (p.x as int, p.y as int));
    assert(q.0.remaining() =~= r);
}

proof fn lemma_advancing(p: Pass)
    requires
        is_at_pixel(p),
    ensures
        goes_on(p, p.unreported(), from_pixel(p).drop_first(), p.advancing()),
{
    if p.x + 1 < p.tile.end_x {
        let q = Pass { x: (p.x + 1) as usize, ..p };
        lemma_starting(q);
        assert(from_pixel(q) =~= from_pixel(p).drop_first());
    } else {
        let q = Pass { phase: Phase::Row, ..p };
        assert(q.remaining() =~= from_pixel(p).drop_first());
    }
}

/// A tile of a picture is not empty and lies in the picture.
pub proof fn lemma_tile_facts(width: int, height: int, index: int)
    requires
        is_picture(width, height),
        0 <= index < tile_count(width, height),
    ensures
        ({
            let t = tile_at(width, height, index);
            t.start_x < t.end_x <= width && t.start_y < t.end_y <= height
        }),
{
    let w = tiles_along(width);
    let h = tiles_along(height);
    lemma_tile_count_fits(width, height);
    assert(w > 0) by (nonlinear_arith)
        requires
            w >= 0,
            h >= 0,
            0 < w * h,
    ;
    lemma_fundamental_div_mod(index, w);
    lemma_mod_bound(index, w);
    let bx = index % w;
    let by = index / w;
    assert(0 <= by < h) by (nonlinear_arith)
        requires
            index == w * by + bx,
            0 <= bx < w,
            0 <= index < w * h,
    ;
    assert(bx * TILE_SIZE <= width - 1 && by * TILE_SIZE <= height - 1);
}

proof fn lemma_opening(p: Pass)
    requires
        is_picture(p.width as int, p.height as int),
        p.index <= p.end <= tile_count(p.width as int, p.height as int),
        p.pixels < NIRC_REFRESH_STRIDE,
        p.rays <= BATCH_SIZE,
    ensures
        goes_on(
            p,
            p.unreported(),
            tiles_pixels(p.width as int, p.height as int, p.index as int, p.end as int),
            p.opening(),
        ),
{
    if p.index < p.end {
        lemma_tile_facts(p.width as int, p.height as int, p.index as int);
        let t = tile_at(p.width as int, p.height as int, p.index as int);
        let q = Pass { tile: t, x: t.start_x, y: t.start_y, ..p };
        lemma_starting(q);
        let all = tiles_pixels(p.width as int, p.height as int, p.index as int, p.end as int);
        assert(rows_pixels(t, t.start_y as int) =~= q.row_from(t.start_x as int) + rows_pixels(t, t.start_y + 1));
        assert(from_pixel(q) =~= all);
    } else {
        assert(p.finished().0.remaining() =~= Seq::empty());
    }
}

proof fn lemma_descending(p: Pass)
    requires
        is_at_pixel(p),
    ensures
        goes_on(
            p,
            p.unreported(),
            rows_pixels(p.tile, p.y + 1) + tiles_pixels(p.width as int, p.height as int, p.index + 1, p.end as int),
            p.descending(),
        ),
{
    if p.y + 1 < p.tile.end_y {
        let q = Pass { x: p.tile.start_x, y: (p.y + 1) as usize, ..p };
        lemma_starting(q);
        assert(rows_pixels(p.tile, p.y + 1) =~= q.row_from(p.tile.start_x as int) + rows_pixels(
            p.tile,
            p.y + 2,
        ));
        assert(from_pixel(q) =~= rows_pixels(p.tile, p.y + 1) + tiles_pixels(
            p.width as int,
            p.height as int,
            p.index + 1,
            p.end as int,
        ));
    } else {
        let q = Pass { index: (p.index + 1) as usize, ..p };
        lemma_opening(q);
        assert(rows_pixels(p.tile, p.y + 1) =~= Seq::empty());
        assert(rows_pixels(p.tile, p.y + 1) + tiles_pixels(
            p.width as int,
            p.height as int,
            p.index + 1,
            p.end as int,
        ) =~= tiles_pixels(p.width as int, p.height as int, p.index + 1, p.end as int));
    }
}

/// Whatever comes of its actions, a pass stays sound. What it has traced and not
/// reported, together with what it reports, is always what it had before and
/// what it traced now. It samples its pixels in order, none twice: one is done
/// when its path has been traced, and unless it is told to stop none is skipped.
pub proof fn law_pass_goes_on(p: Pass, e: Outcome)
    requires
        p.is_sound(),
        p.can_count(e),
    ensures
        goes_on(
            p,
            (
                p.unreported().0 + traced(p.phase, e).0,
                p.unreported().1 + traced(p.phase, e).1,
                p.unreported().2 + traced(p.phase, e).2,
            ),
            if e.stop && (p.phase is Batch || p.phase is Row) {
                Seq::empty()
            } else if p.phase is Traced {
                p.remaining().drop_first()
            } else {
                p.remaining()
            },
            p.next(e),
        ),
{
    let q = p.next(e);
    match p.phase {
        Phase::Start => {
            lemma_opening(p);
        },
        Phase::Batch => {
            if e.stop {
                assert(q.0.remaining() =~= Seq::empty());
            } else {
                assert(q.0.remaining() =~= p.remaining());
            }
        },
        Phase::Reported => {
            lemma_entering(p);
            assert(from_pixel(p) =~= p.remaining());
        },
        Phase::Refreshed => {
            lemma_index_fits(p);
            assert(q.0.remaining() =~= p.remaining());
            assert(p.remaining()[0] == (p.x as int, p.y as int));
        },
        Phase::Traced => {
            let r = Pass {
                rays: (p.rays + 1) as u64,
                real_rays: (p.real_rays + e.real_rays) as u64,
                shadow_rays: (p.shadow_rays + e.shadow_rays) as u64,
                ..p
            };
            assert(p.remaining() =~= from_pixel(r));
            if r.pixels % TRAIN_PIXEL_STRIDE == 0 {
                assert(q.0.remaining() =~= p.remaining().drop_first());
            } else {
                lemma_advancing(r);
            }
        },
        Phase::Trained => {
            lemma_advancing(p);
            assert(from_pixel(p).drop_first() =~= p.remaining());
        },
        Phase::Row => {
            if e.stop {
                assert(q.0.remaining() =~= Seq::empty());
            } else {
                lemma_descending(p);
                assert(p.row_from(p.x + 1) =~= Seq::empty());
                assert(p.remaining() =~= rows_pixels(p.tile, p.y + 1) + tiles_pixels(
                    p.width as int,
                    p.height as int,
                    p.index + 1,
                    p.end as int,
                ));
            }
        },
        Phase::Last => {},
        Phase::Done => {},
    }
}

impl Pass {
    /// The pass of a worker over its tiles of a picture.
    pub fn new(width: usize, height: usize, workers: usize, worker: usize) -> (r: Pass)
        requires
            is_picture(width as int, height as int),
            worker < workers,
        ensures
            r.is_sound(),
            r.phase is Start,
            r.unreported() == (0int, 0int, 0int),
            r.pixels == 0,
            r.width == width,
            r.height == height,
            r.remaining() == tiles_pixels(
                width as int,
                height as int,
                first_tile(tile_count(width as int, height as int), workers as int, worker as int),
                first_tile(tile_count(width as int, height as int), workers as int, worker + 1),
            ),
    {
        let (start, end) = worker_tiles(width, height, workers, worker);
        Pass {
            width,
            height,
            index: start,
            end,
            tile: Tile { start_x: 0, end_x: 0, start_y: 0, end_y: 0 },
            x: 0,
            y: 0,
            rays: 0,
            real_rays: 0,
            shadow_rays: 0,
            pixels: 0,
            phase: Phase::Start,
        }
    }

    fn finish(self) -> (r: (Pass, Action))
        ensures
            r == self.finished(),
    {
        if self.rays > 0 {
            (
                Pass { rays: 0, real_rays: 0, shadow_rays: 0, phase: Phase::Last, ..self },
                Action::Report { rays: self.rays, real_rays: self.real_rays, shadow_rays: self.shadow_rays },
            )
        } else {
            (Pass { phase: Phase::Done, ..self }, Action::End)
        }
    }

    fn sample(self) -> (r: (Pass, Action))
        requires
            is_at_pixel(self),
        ensures
            r == self.sampling(),
    {
        proof {
            lemma_index_fits(self);
        }
        (
            Pass { phase: Phase::Traced, ..self },
            Action::Sample { x: self.x, y: self.y, index: self.y * self.width + self.x },
        )
    }

    fn enter(self) -> (r: (Pass, Action))
        requires
            is_at_pixel(self),
        ensures
            r == self.entering(),
    {
        let p = Pass { pixels: (self.pixels + 1) % NIRC_REFRESH_STRIDE, ..self };
        if p.pixels == 0 {
            (Pass { phase: Phase::Refreshed, ..p }, Action::Refresh)
        } else {
            p.sample()
        }
    }

    fn start(self) -> (r: (Pass, Action))
        requires
            is_at_pixel(self),
        ensures
            r == self.starting(),
    {
        if self.rays >= BATCH_SIZE {
            (Pass { phase: Phase::Batch, ..self }, Action::Look)
        } else {
            self.enter()
        }
    }

    fn advance(self) -> (r: (Pass, Action))
        requires
            is_at_pixel(self),
        ensures
            r == self.advancing(),
    {
        if self.x + 1 < self.tile.end_x {
            (Pass { x: self.x + 1, ..self }).start()
        } else {
            (Pass { phase: Phase::Row, ..self }, Action::Look)
        }
    }

    fn open(self) -> (r: (Pass, Action))
        requires
            is_picture(self.width as int, self.height as int),
            self.index <= self.end <= tile_count(self.width as int, self.height as int),
            self.pixels < NIRC_REFRESH_STRIDE,
            self.rays <= BATCH_SIZE,
        ensures
            r == self.opening(),
    {
        if self.index < self.end {
            let t = tile(self.width, self.height, self.index);
            (Pass { tile: t, x: t.start_x, y: t.start_y, ..self }).start()
        } else {
            self.finish()
        }
    }

    fn descend(self) -> (r: (Pass, Action))
        requires
            is_at_pixel(self),
        ensures
            r == self.descending(),
    {
        proof {
            lemma_tile_facts(self.width as int, self.height as int, self.index as int);
        }
        if self.y + 1 < self.tile.end_y {
            (Pass { x: self.tile.start_x, y: self.y + 1, ..self }).start()
        } else {
            (Pass { index: self.index + 1, ..self }).open()
        }
    }

    /// Goes on to the next action, given what came of the one before.
    pub fn step(&mut self, e: Outcome) -> (r: Action)
        requires
            old(self).is_sound(),
            old(self).can_count(e),
        ensures
            (*final(self), r) == old(self).next(e),
            final(self).is_sound(),
    {
        let p = *self;
        proof {
            law_pass_goes_on(p, e);
        }
        let (q, a) = match p.phase {
            Phase::Start => p.open(),
            Phase::Batch => if e.stop {
                p.finish()
            } else {
                (
                    Pass { rays: 0, real_rays: 0, shadow_rays: 0, phase: Phase::Reported, ..p },
                    Action::Report { rays: p.rays, real_rays: p.real_rays, shadow_rays: p.shadow_rays },
                )
            },
            Phase::Reported => p.enter(),
            Phase::Refreshed => p.sample(),
            Phase::Traced => {
                let t = Pass {
                    rays: p.rays + 1,
                    real_rays: p.real_rays + e.real_rays,
                    shadow_rays: p.shadow_rays + e.shadow_rays,
                    ..p
                };
                if t.pixels % TRAIN_PIXEL_STRIDE == 0 {
                    (Pass { phase: Phase::Trained, ..t }, Action::Train { x: t.x, y: t.y })
                } else {
                    t.advance()
                }
            },
            Phase::Trained => p.advance(),
            Phase::Row => if e.stop {
                p.finish()
            } else {
                p.descend()
            },
            Phase::Last => (Pass { phase: Phase::Done, ..p }, Action::End),
            Phase::Done => (p, Action::End),
        };
        *self = q;
        a
    }
}

/// What a worker renders with: the version of its scene and that of its network.
#[derive(Clone, Copy, PartialEq, Eq, Structural, Debug)]
pub struct Versions {
    pub epoch: u32,
    pub nirc_epoch: u32,
}

impl Versions {
    /// A worker that has nothing yet: the first scene and network are news to it.
    pub fn new() -> (r: Versions)
        ensures
            r == (Versions { epoch: 0, nirc_epoch: u32::MAX }),
    {
        Versions { epoch: 0, nirc_epoch: u32::MAX }
    }

    /// Whether a worker has to take over the scene before its next pass; the network
    /// that comes with the scene is taken over too.
    pub fn take_scene(&mut self, epoch: u32, nirc_epoch: u32) -> (r: bool)
        ensures
            r == (old(self).epoch != epoch),
            *final(self) == (if r {
                Versions { epoch, nirc_epoch }
            } else {
                *old(self)
            }),
    {
        if self.epoch == epoch {
            return false;
        }
        self.epoch = epoch;
        self.nirc_epoch = nirc_epoch;
        true
    }

    /// Whether a worker has to take over the network.
    pub fn take_network(&mut self, nirc_epoch: u32) -> (r: bool)
        ensures
            r == (old(self).nirc_epoch != nirc_epoch),
            *final(self) == (Versions { nirc_epoch, ..*old(self) }),
    {
        if self.nirc_epoch == nirc_epoch {
            return false;
        }
        self.nirc_epoch = nirc_epoch;
        true
    }

    /// Whether a pass is to stop: the scene has changed, or the renderer has ended.
    #[verifier::allow_in_spec]
    pub fn is_stale(&self, epoch: u32, running: bool) -> bool
        returns
            self.epoch != epoch || !running,
    {
        self.epoch != epoch || !running
    }
}

} // verus!
