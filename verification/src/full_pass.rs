//! What all workers together sample.
use vstd::prelude::*;
use crate::schedule::{
    first_tile, is_picture, is_tile_of, law_pass_goes_on, law_pixel_in_one_tile, law_tile_has_one_worker, lemma_runs_in_range,
    lemma_tile_facts, rows_pixels, tile_at, tile_count, tile_of, tiles_along, tiles_pixels, Outcome, Pass, Tile,
};

verus! {

/// Whether nothing tells a pass to stop, and all that comes of its actions can be
/// counted.
pub open spec fn runs_freely(p: Pass, es: Seq<Outcome>) -> bool
    decreases es.len(),
{
    es.len() == 0 || {
        &&& !es[0].stop
        &&& p.can_count(es[0])
        &&& runs_freely(p.next(es[0]).0, es.drop_first())
    }
}

/// The pass after its actions have come to something.
pub open spec fn after_run(p: Pass, es: Seq<Outcome>) -> Pass
    decreases es.len(),
{
    if es.len() == 0 {
        p
    } else {
        after_run(p.next(es[0]).0, es.drop_first())
    }
}

/// The pixels through which a pass has traced paths, in order.
pub open spec fn sampled(p: Pass, es: Seq<Outcome>) -> Seq<(int, int)>
    decreases es.len(),
{
    if es.len() == 0 {
        Seq::empty()
    } else {
        let now = if p.phase is Traced {
            seq![(p.x as int, p.y as int)]
        } else {
            Seq::empty()
        };
        now + sampled(p.next(es[0]).0, es.drop_first())
    }
}

/// What a pass has sampled and what is left is what it had to sample.
proof fn lemma_run(p: Pass, es: Seq<Outcome>)
    requires
        p.is_sound(),
        runs_freely(p, es),
    ensures
        sampled(p, es) + after_run(p, es).remaining() == p.remaining(),
        after_run(p, es).is_sound(),
    decreases es.len(),
{
    if es.len() > 0 {
        let q = p.next(es[0]).0;
        law_pass_goes_on(p, es[0]);
        lemma_run(q, es.drop_first());
        let rest = sampled(q, es.drop_first());
        let left = after_run(p, es).remaining();
        if p.phase is Traced {
            let first = seq![(p.x as int, p.y as int)];
            assert(p.remaining()[0] == (p.x as int, p.y as int));
            assert(p.remaining() =~= first + p.remaining().drop_first());
            assert((first + rest) + left =~= first + (rest + left));
        } else {
            assert((Seq::<(int, int)>::empty() + rest) + left =~= rest + left);
        }
    } else {
        assert(sampled(p, es) + p.remaining() =~= p.remaining());
    }
}

/// A pass that runs to its end samples all its pixels, in order.
pub proof fn law_pass_samples_all(p: Pass, es: Seq<Outcome>)
    requires
        p.is_sound(),
        runs_freely(p, es),
        after_run(p, es).phase is Done,
    ensures
        sampled(p, es) == p.remaining(),
{
    lemma_run(p, es);
    assert(sampled(p, es) + Seq::<(int, int)>::empty() =~= sampled(p, es));
}

/// Whether two lists have nothing in common.
spec fn are_apart(a: Seq<(int, int)>, b: Seq<(int, int)>) -> bool {
    forall|i: int, j: int| 0 <= i < a.len() && 0 <= j < b.len() ==> #[trigger] a[i] != #[trigger] b[j]
}

proof fn lemma_joined(a: Seq<(int, int)>, b: Seq<(int, int)>, p: (int, int))
    ensures
        (a + b).contains(p) <==> a.contains(p) || b.contains(p),
        a.no_duplicates() && b.no_duplicates() && are_apart(a, b) ==> (a + b).no_duplicates(),
{
    let s = a + b;
    if a.contains(p) {
        let i = choose|i: int| 0 <= i < a.len() && a[i] == p;
        assert(s[i] == p);
    }
    if b.contains(p) {
        let i = choose|i: int| 0 <= i < b.len() && b[i] == p;
        assert(s[a.len() + i] == p);
    }
}

/// The rows of a tile hold each pixel once.
proof fn lemma_rows(t: Tile, from: int, p: (int, int))
    requires
        t.start_x <= t.end_x,
    ensures
        rows_pixels(t, from).contains(p) <==> t.start_x <= p.0 < t.end_x && from <= p.1 < t.end_y,
        rows_pixels(t, from).no_duplicates(),
    decreases t.end_y - from,
{
    if from < t.end_y {
        let row = Seq::new((t.end_x - t.start_x) as nat, |i: int| (t.start_x + i, from));
        let rest = rows_pixels(t, from + 1);
        lemma_rows(t, from + 1, p);
        lemma_joined(row, rest, p);
        if t.start_x <= p.0 < t.end_x && p.1 == from {
            assert(row[p.0 - t.start_x] == p);
        }
        assert forall|i: int, j: int| 0 <= i < row.len() && 0 <= j < rest.len() implies #[trigger] row[i]
            != #[trigger] rest[j] by {
            lemma_rows(t, from + 1, rest[j]);
            assert(rest.contains(rest[j]));
        }
    }
}

/// A run of tiles holds each of its pixels once.
proof fn lemma_tiles(width: int, height: int, index: int, end: int, p: (int, int))
    requires
        is_picture(width, height),
        0 <= index <= end <= tile_count(width, height),
    ensures
        tiles_pixels(width, height, index, end).contains(p) <==> 0 <= p.0 < width && 0 <= p.1 < height && index
            <= tile_of(width, p.0, p.1) < end,
        tiles_pixels(width, height, index, end).no_duplicates(),
    decreases end - index,
{
    if index < end {
        let t = tile_at(width, height, index);
        let rows = rows_pixels(t, t.start_y as int);
        let rest = tiles_pixels(width, height, index + 1, end);
        lemma_tile_facts(width, height, index);
        lemma_rows(t, t.start_y as int, p);
        lemma_tiles(width, height, index + 1, end, p);
        lemma_joined(rows, rest, p);
        if 0 <= p.0 < width && 0 <= p.1 < height {
            law_pixel_in_one_tile(width, height, p.0, p.1, index);
        }
        assert forall|i: int, j: int| 0 <= i < rows.len() && 0 <= j < rest.len() implies #[trigger] rows[i]
            != #[trigger] rest[j] by {
            let q = rows[i];
            assert(rows.contains(q));
            lemma_rows(t, t.start_y as int, q);
            law_pixel_in_one_tile(width, height, q.0, q.1, index);
            if rest[j] == q {
                assert(rest.contains(q));
                lemma_tiles(width, height, index + 1, end, q);
            }
        }
    }
}

/// Whether a pass is that of a worker, about to start.
pub open spec fn is_pass_of(p: Pass, width: int, height: int, workers: int, worker: int) -> bool {
    let total = tile_count(width, height);
    &&& p.is_sound()
    &&& p.remaining() == tiles_pixels(
        width,
        height,
        first_tile(total, workers, worker),
        first_tile(total, workers, worker + 1),
    )
}

/// Whether a pass samples a pixel as its `k`th.
pub open spec fn samples_at(p: Pass, es: Seq<Outcome>, k: int, x: int, y: int) -> bool {
    0 <= k < sampled(p, es).len() && sampled(p, es)[k] == (x, y)
}

/// When all workers run to their ends, each pixel of the picture is sampled
/// exactly once: by one worker, and by that one at one moment.
pub proof fn law_full_pass_samples_each_pixel_once(
    width: int,
    height: int,
    passes: Seq<Pass>,
    runs: Seq<Seq<Outcome>>,
    x: int,
    y: int,
)
    requires
        is_picture(width, height),
        0 < passes.len() == runs.len(),
        forall|w: int|
            0 <= w < passes.len() ==> {
                &&& is_pass_of(#[trigger] passes[w], width, height, passes.len() as int, w)
                &&& runs_freely(passes[w], runs[w])
                &&& after_run(passes[w], runs[w]).phase is Done
            },
        0 <= x < width,
        0 <= y < height,
    ensures
        exists|w: int, k: int| 0 <= w < passes.len() && #[trigger] samples_at(passes[w], runs[w], k, x, y),
        forall|v: int, i: int, w: int, k: int|
            0 <= v < passes.len() && 0 <= w < passes.len() && #[trigger] samples_at(passes[v], runs[v], i, x, y)
                && #[trigger] samples_at(passes[w], runs[w], k, x, y) ==> v == w && i == k,
{
    let total = tile_count(width, height);
    let workers = passes.len() as int;
    let tile = tile_of(width, x, y);
    let (across, down) = (tiles_along(width), tiles_along(height));
    assert(across * down > 0) by (nonlinear_arith)
        requires
            across > 0,
            down > 0,
    ;
    law_pixel_in_one_tile(width, height, x, y, 0);
    law_tile_has_one_worker(total, workers, tile);
    assert forall|w: int| 0 <= w < workers implies {
        &&& sampled(#[trigger] passes[w], runs[w]).contains((x, y)) <==> is_tile_of(total, workers, w, tile)
        &&& sampled(passes[w], runs[w]).no_duplicates()
    } by {
        law_pass_samples_all(passes[w], runs[w]);
        lemma_runs_in_range(total, workers, w);
        lemma_tiles(
            width,
            height,
            first_tile(total, workers, w),
            first_tile(total, workers, w + 1),
            (x, y),
        );
    }
    let w = choose|w: int| 0 <= w < workers && #[trigger] is_tile_of(total, workers, w, tile);
    assert(sampled(passes[w], runs[w]).contains((x, y)));
    let k = choose|k: int| 0 <= k < sampled(passes[w], runs[w]).len() && sampled(passes[w], runs[w])[k] == (x, y);
    assert(samples_at(passes[w], runs[w], k, x, y));
    assert forall|v: int, i: int, w: int, k: int|
        0 <= v < passes.len() && 0 <= w < passes.len() && #[trigger] samples_at(passes[v], runs[v], i, x, y)
            && #[trigger] samples_at(passes[w], runs[w], k, x, y) implies v == w && i == k by {
        assert(sampled(passes[v], runs[v]).contains((x, y)));
        assert(sampled(passes[w], runs[w]).contains((x, y)));
    }
}

} // verus!
