//! Training samples for the radiance cache.
use vstd::prelude::*;
use crate::accel::bvh::Ray;
use crate::arith::{dot, plus, scaled, times, Arith, ArithRules};
use crate::material::evaluate_surface;
use crate::nirc::encoding::encode_inputs;
use crate::nirc::ring::Sample;
use crate::pcg32::{Pcg32, Stream};
use crate::scalar::Scalar;
use crate::scene::{black, white, Color};
use crate::tracer::bounce::{russian_roulette, shading_point, Trail, Turn};
use crate::tracer::config::{find_hit, PathTracerConfig, SamplingStrategy, TraceRules};
use crate::tracer::direct::{compute_direct_lighting, ShadingPoint};
use crate::tracer::path::{PathTracer, MAX_BOUNCES};

verus! {

/// Key of the least throughput that a target is divided by.
pub const MIN_THROUGHPUT_KEY: i32 = 0x3586_37bd;

/// A vertex that training learns from: the features of the ray that led to it,
/// what the path let through up to it, and its direct light.
#[derive(Clone, Copy, Debug)]
pub struct Vertex {
    pub input: [Scalar; 9],
    pub throughput: Color,
    pub direct: Color,
}

/// A vertex, its features as a sequence.
#[verifier::ext_equal]
pub struct VertexView {
    pub input: Seq<Scalar>,
    pub throughput: Color,
    pub direct: Color,
}

impl Vertex {
    pub open spec fn model(self) -> VertexView {
        VertexView { input: self.input@, throughput: self.throughput, direct: self.direct }
    }
}

/// The vertices as models.
pub open spec fn models(vertices: Seq<Vertex>) -> Seq<VertexView> {
    vertices.map_values(|v: Vertex| v.model())
}

/// A training path on its way: the vertices so far, the next ray, and what the
/// path still lets through.
#[verifier::ext_equal]
pub struct Lesson {
    pub vertices: Seq<VertexView>,
    pub ray: Ray,
    pub throughput: Color,
    pub rng: Stream,
}

impl TraceRules {
    /// The direct light at a vertex of a training path.
    pub open spec fn lesson_at(self, cfg: PathTracerConfig, bounce: u32, lesson: Lesson) -> Lesson {
        match self.hit(*cfg.bvh, lesson.ray) {
            None => lesson,
            Some(hit) => {
                let surf = self.arith.surface(hit, lesson.ray, *cfg.bvh, *cfg.scene);
                if bounce >= 1 {
                    let lit = self.direct(
                        cfg,
                        SamplingStrategy::Mis,
                        shading_point(surf, lesson.ray.dir.negated()),
                        lesson.rng,
                    );
                    Lesson {
                        vertices: lesson.vertices.push(
                            VertexView {
                                input: self.arith.features(
                                    lesson.ray.org,
                                    lesson.ray.dir,
                                    cfg.bvh.bounds_min,
                                    cfg.bvh.bounds_max,
                                ),
                                throughput: lesson.throughput,
                                direct: lit.total,
                            },
                        ),
                        rng: lit.rng,
                        ..lesson
                    }
                } else {
                    lesson
                }
            },
        }
    }

    /// Whether a training path can be lit at its next vertex: it meets a surface
    /// that lets nothing through.
    pub open spec fn is_lesson(self, cfg: PathTracerConfig, ray: Ray) -> bool {
        match self.hit(*cfg.bvh, ray) {
            None => false,
            Some(hit) => !Scalar::zero().lt(self.arith.surface(hit, ray, *cfg.bvh, *cfg.scene).transmission),
        }
    }

    /// How a training path leaves a vertex.
    pub open spec fn lesson_turn(self, cfg: PathTracerConfig, bounce: u32, lesson: Lesson) -> Turn {
        let surf = self.arith.surface(self.hit(*cfg.bvh, lesson.ray)->0, lesson.ray, *cfg.bvh, *cfg.scene);
        self.arith.scatter_turn(
            surf,
            bounce,
            Trail {
                ray: lesson.ray,
                throughput: lesson.throughput,
                radiance: black(),
                bsdf_pdf: Scalar::zero(),
                shadow_rays: 0,
                rng: lesson.rng,
            },
        )
    }

    /// A training path from a bounce on, for at most `left` more vertices.
    pub open spec fn lessons(self, cfg: PathTracerConfig, bounce: u32, left: nat, lesson: Lesson) -> Lesson
        decreases left,
    {
        if left == 0 || !self.is_lesson(cfg, lesson.ray) {
            lesson
        } else {
            let lit = self.lesson_at(cfg, bounce, lesson);
            let turn = self.lesson_turn(cfg, bounce, lit);
            if turn.goes_on {
                self.lessons(
                    cfg,
                    (bounce + 1) as u32,
                    (left - 1) as nat,
                    Lesson {
                        vertices: lit.vertices,
                        ray: turn.trail.ray,
                        throughput: turn.trail.throughput,
                        rng: turn.trail.rng,
                    },
                )
            } else {
                Lesson { rng: turn.trail.rng, ..lit }
            }
        }
    }

    /// The training path of a pixel.
    pub open spec fn pixel_lessons(self, cfg: PathTracerConfig, x: usize, y: usize, rng: Stream) -> Lesson {
        let ray = self.arith.jittered_ray(
            cfg.camera,
            cfg.width,
            cfg.height,
            self.arith.of_count(x),
            self.arith.of_count(y),
            rng,
        );
        self.lessons(
            cfg,
            0,
            MAX_BOUNCES as nat,
            Lesson { vertices: Seq::empty(), ray, throughput: white(), rng: rng.next().next() },
        )
    }
}

impl ArithRules {
    /// What all vertices from the `n`th on bring to the camera.
    pub open spec fn suffix(self, vertices: Seq<VertexView>, n: int) -> Color
        decreases vertices.len() - n,
    {
        if n >= vertices.len() {
            black()
        } else {
            self.plus(
                self.suffix(vertices, n + 1),
                self.times(vertices[n].throughput, vertices[n].direct),
            )
        }
    }

    /// A part of what is brought, as seen from where little less than `t` gets through.
    pub open spec fn undone(self, s: Scalar, t: Scalar) -> Scalar {
        if (Scalar { key: MIN_THROUGHPUT_KEY }).lt(t) {
            self.quotient(s, t).max(Scalar::zero())
        } else {
            Scalar::zero()
        }
    }

    /// The target of a vertex: what it and all later ones bring, as seen from it.
    pub open spec fn target(self, vertices: Seq<VertexView>, n: int) -> Seq<Scalar> {
        let s = self.suffix(vertices, n);
        let t = vertices[n].throughput;
        seq![self.undone(s.x, t.x), self.undone(s.y, t.y), self.undone(s.z, t.z)]
    }

    /// Whether samples teach what vertices have shown, in order.
    pub open spec fn teaches(self, samples: Seq<Sample>, vertices: Seq<VertexView>) -> bool {
        &&& samples.len() == vertices.len()
        &&& forall|n: int|
            0 <= n < samples.len() ==> (#[trigger] samples[n]).input@ == vertices[n].input && samples[n].target@
                == self.target(vertices, n)
    }
}

/// A part of what is brought, as seen from where `t` gets through.
fn undo<M: Arith>(math: &M, s: Scalar, t: Scalar) -> (r: Scalar)
    ensures
        forall|rules: ArithRules| #[trigger] rules.describe(*math) ==> r == rules.undone(s, t),
{
    if (Scalar { key: MIN_THROUGHPUT_KEY }).lt(t) {
        math.quotient(s, t).max(Scalar::zero())
    } else {
        Scalar::zero()
    }
}

/// From the last vertex to the first: each learns what it and all later ones bring.
pub fn make_samples<M: Arith>(math: &M, vertices: &Vec<Vertex>) -> (r: Vec<Sample>)
    ensures
        r.len() == vertices.len(),
        forall|rules: ArithRules| #[trigger] rules.describe(*math) ==> rules.teaches(r@, models(vertices@)),
{
    let n: usize = vertices.len();
    let mut reversed: Vec<Sample> = Vec::new();
    let mut suffix = black();
    let ghost all = models(vertices@);
    let mut i: usize = n;
    while i > 0
        invariant
            i <= n,
            n == vertices.len(),
            all == models(vertices@),
            reversed.len() == n - i,
            forall|rules: ArithRules| #[trigger] rules.describe(*math) ==> suffix == rules.suffix(all, i as int),
            forall|rules: ArithRules, k: int|
                #![trigger rules.describe(*math), reversed@[k]]
                rules.describe(*math) && 0 <= k < n - i ==> reversed@[k].input@ == all[n - 1 - k].input
                    && reversed@[k].target@ == rules.target(all, n - 1 - k),
        decreases i,
    {
        i = i - 1;
        let v = vertices[i];
        assert(all[i as int] == v.model());
        suffix = plus(math, suffix, times(math, v.throughput, v.direct));
        let t = v.throughput;
        let target = [undo(math, suffix.x, t.x), undo(math, suffix.y, t.y), undo(math, suffix.z, t.z)];
        proof {
            assert forall|rules: ArithRules| #[trigger] rules.describe(*math) implies target@ == rules.target(
                all,
                i as int,
            ) by {
                assert(suffix == rules.suffix(all, i as int));
                assert(target@ =~= rules.target(all, i as int));
            }
        }
        reversed.push(Sample { input: v.input, target });
    }
    let mut samples: Vec<Sample> = Vec::new();
    let mut k: usize = 0;
    while k < n
        invariant
            k <= n,
            n == vertices.len(),
            reversed.len() == n,
            samples.len() == k,
            forall|j: int| 0 <= j < k ==> #[trigger] samples@[j] == reversed@[n - 1 - j],
        decreases n - k,
    {
        samples.push(reversed[n - 1 - k]);
        k = k + 1;
    }
    proof {
        assert forall|rules: ArithRules| #[trigger] rules.describe(*math) implies rules.teaches(samples@, all) by {
            assert forall|j: int| 0 <= j < samples@.len() implies (#[trigger] samples@[j]).input@ == all[j].input
                && samples@[j].target@ == rules.target(all, j) by {
                assert(samples@[j] == reversed@[n - 1 - j]);
            }
        }
    }
    samples
}

impl PathTracer {
    /// Traces a full path from pixel (x, y) and returns one training sample per
    /// opaque bounce from the first on. Roulette ends the path; there is no cap.
    ///
    /// The target at a bounce is the direct radiance from there onward, as seen
    /// from there. Emission is left out at every vertex; inference adds it back.
    #[verifier::rlimit(60)]
    pub fn collect_training_samples_for_pixel<M: Arith>(
        &self,
        math: &M,
        x: usize,
        y: usize,
        rng: &mut Pcg32,
    ) -> (r: Vec<Sample>)
        requires
            self.cfg().valid(),
        ensures
            forall|rules: TraceRules| #[trigger]
                rules.describe(*math) && self.sees_by(rules.arith) ==> {
                    let lesson = rules.pixel_lessons(self.cfg(), x, y, old(rng)@);
                    rules.arith.teaches(r@, lesson.vertices) && final(rng)@ == lesson.rng
                },
    {
        let cfg = self.config();
        let mut vertices: Vec<Vertex> = Vec::new();
        let mut ray = self.generate_ray(math, rng, math.of_count(x), math.of_count(y));
        let mut throughput = white();
        let mut bounce: u32 = 0;
        let ghost start = old(rng)@;
        proof {
            assert(models(vertices@) =~= Seq::<VertexView>::empty());
            assert forall|rules: TraceRules| #[trigger]
                rules.describe(*math) && self.sees_by(rules.arith) implies rules.pixel_lessons(
                *cfg,
                x,
                y,
                start,
            ) == rules.lessons(
                *cfg,
                0,
                MAX_BOUNCES as nat,
                (Lesson { vertices: models(vertices@), ray, throughput, rng: rng@ }),
            ) by {
                assert(rules.arith.describe(*math));
            }
        }
        let mut going: bool = true;
        while going && bounce < MAX_BOUNCES
            invariant
                cfg.valid(),
                bounce <= MAX_BOUNCES,
                going ==> forall|rules: TraceRules| #[trigger]
                    rules.describe(*math) && self.sees_by(rules.arith) ==> rules.pixel_lessons(
                        *cfg,
                        x,
                        y,
                        start,
                    ) == rules.lessons(
                        *cfg,
                        bounce,
                        (MAX_BOUNCES - bounce) as nat,
                        (Lesson { vertices: models(vertices@), ray, throughput, rng: rng@ }),
                    ),
                !going ==> forall|rules: TraceRules| #[trigger]
                    rules.describe(*math) && self.sees_by(rules.arith) ==> {
                        let lesson = rules.pixel_lessons(*cfg, x, y, start);
                        lesson.vertices == models(vertices@) && lesson.rng == rng@
                    },
            decreases MAX_BOUNCES - bounce, (if going { 1int } else { 0 }),
        {
            let ghost before = (Lesson { vertices: models(vertices@), ray, throughput, rng: rng@ });
            let ghost left = (MAX_BOUNCES - bounce) as nat;
            match next_vertex(math, cfg, bounce, ray, throughput, rng) {
                None => {
                    going = false;
                    proof {
                        assert forall|rules: TraceRules| #[trigger]
                            rules.describe(*math) && self.sees_by(rules.arith) implies ({
                            let lesson = rules.pixel_lessons(*cfg, x, y, start);
                            lesson.vertices == models(vertices@) && lesson.rng == rng@
                        }) by {
                            let lit = rules.lesson_at(*cfg, bounce, before);
                            assert(rules.lessons(*cfg, bounce, left, before) == before);
                        }
                    }
                },
                Some(step) => {
                    if let Some(v) = step.vertex {
                        let ghost old_vertices = vertices@;
                        vertices.push(v);
                        assert(models(vertices@) =~= models(old_vertices).push(v.model()));
                    }
                    proof {
                        assert forall|rules: TraceRules| #[trigger]
                            rules.describe(*math) && self.sees_by(rules.arith) implies ({
                            let lit = rules.lesson_at(*cfg, bounce, before);
                            let turn = rules.lesson_turn(*cfg, bounce, lit);
                            let lesson = rules.pixel_lessons(*cfg, x, y, start);
                            match step.next {
                                None => lesson.vertices == models(vertices@) && lesson.rng == rng@,
                                Some(n) => lesson == rules.lessons(
                                    *cfg,
                                    (bounce + 1) as u32,
                                    (left - 1) as nat,
                                    (Lesson { vertices: models(vertices@), ray: n.0, throughput: n.1, rng: rng@ }),
                                ),
                            }
                        }) by {
                            let lit = rules.lesson_at(*cfg, bounce, before);
                            assert(lit.vertices == models(vertices@));
                            assert(rules.is_lesson(*cfg, before.ray));
                        }
                    }
                    match step.next {
                        None => {
                            going = false;
                        },
                        Some((next_ray, next_throughput)) => {
                            ray = next_ray;
                            throughput = next_throughput;
                            bounce = bounce + 1;
                        },
                    }
                },
            }
        }
        let samples = make_samples(math, &vertices);
        proof {
            assert forall|rules: TraceRules| #[trigger]
                rules.describe(*math) && self.sees_by(rules.arith) implies ({
                let lesson = rules.pixel_lessons(self.cfg(), x, y, old(rng)@);
                rules.arith.teaches(samples@, lesson.vertices) && rng@ == lesson.rng
            }) by {
                assert(rules.arith.describe(*math));
            }
        }
        samples
    }
}

/// What a training path does at a vertex: what it learns there, and how it goes on.
pub struct LessonStep {
    pub vertex: Option<Vertex>,
    pub next: Option<(Ray, Color)>,
}

/// The next vertex of a training path; none if there is nothing to learn from.
fn next_vertex<M: Arith>(
    math: &M,
    cfg: &PathTracerConfig,
    bounce: u32,
    ray: Ray,
    throughput: Color,
    rng: &mut Pcg32,
) -> (r: Option<LessonStep>)
    requires
        cfg.valid(),
    ensures
        r is None ==> final(rng)@ == old(rng)@,
        forall|rules: TraceRules, vertices: Seq<VertexView>|
            #![trigger rules.describe(*math), rules.lesson_at(*cfg, bounce, (Lesson { vertices, ray, throughput, rng: old(rng)@ }))]
            rules.describe(*math) ==> {
                let lesson = (Lesson { vertices, ray, throughput, rng: old(rng)@ });
                let lit = rules.lesson_at(*cfg, bounce, lesson);
                let turn = rules.lesson_turn(*cfg, bounce, lit);
                match r {
                    None => !rules.is_lesson(*cfg, ray),
                    Some(step) => {
                        &&& rules.is_lesson(*cfg, ray)
                        &&& lit.vertices == (match step.vertex {
                            Some(v) => vertices.push(v.model()),
                            None => vertices,
                        })
                        &&& final(rng)@ == turn.trail.rng
                        &&& turn.goes_on <==> step.next is Some
                        &&& (step.next matches Some(n) ==> n.0 == turn.trail.ray && n.1 == turn.trail.throughput)
                    },
                }
            },
{
    let hit = match find_hit(math, cfg, &ray) {
        None => {
            return None;
        },
        Some(hit) => hit,
    };
    let surf = evaluate_surface(math, &hit, &ray, &cfg.bvh, &cfg.scene);
    proof {
        assert forall|rules: TraceRules| #[trigger] rules.describe(*math) implies surf
            == rules.arith.surface(hit, ray, *cfg.bvh, *cfg.scene) && rules.hit(*cfg.bvh, ray) == Some(hit) by {
            assert(rules.arith.describe(*math));
        }
    }
    if Scalar::zero().lt(surf.transmission) {
        return None;
    }
    let wo = ray.dir.negated();
    let brdf = surf.brdf();
    let vertex: Option<Vertex> = if bounce >= 1 {
        let input = encode_inputs(math, &ray.org, &ray.dir, &cfg.bvh.bounds_min, &cfg.bvh.bounds_max);
        let at = ShadingPoint { position: surf.position, normal: surf.normal, brdf, wo };
        let (direct, _count): (Color, u64) = compute_direct_lighting(
            math,
            cfg,
            SamplingStrategy::Mis,
            at,
            rng,
        );
        Some(Vertex { input, throughput, direct })
    } else {
        None
    };
    let ghost lit_rng = rng@;
    let next: Option<(Ray, Color)> = match brdf.sample(math, surf.normal, wo, rng) {
        None => None,
        Some(bs) => {
            let cos_theta = dot(math, surf.normal, bs.wi).max(Scalar::zero());
            if bs.pdf.le(Scalar::zero()) || cos_theta.le(Scalar::zero()) {
                None
            } else {
                let t = times(math, throughput, scaled(math, bs.f, math.quotient(cos_theta, bs.pdf)));
                match russian_roulette(math, t, bounce, rng) {
                    None => None,
                    Some(t) => Some((Ray::new(surf.position, bs.wi), t)),
                }
            }
        },
    };
    proof {
        assert forall|rules: TraceRules, vertices: Seq<VertexView>|
            #![trigger rules.describe(*math), rules.lesson_at(*cfg, bounce, (Lesson { vertices, ray, throughput, rng: old(rng)@ }))]
            rules.describe(*math) implies ({
            let lesson = (Lesson { vertices, ray, throughput, rng: old(rng)@ });
            let lit = rules.lesson_at(*cfg, bounce, lesson);
            let turn = rules.lesson_turn(*cfg, bounce, lit);
            &&& rules.is_lesson(*cfg, ray)
            &&& lit.vertices == (match vertex {
                Some(v) => vertices.push(v.model()),
                None => vertices,
            })
            &&& rng@ == turn.trail.rng
            &&& turn.goes_on <==> next is Some
            &&& (next matches Some(n) ==> n.0 == turn.trail.ray && n.1 == turn.trail.throughput)
        }) by {
            assert(rules.arith.describe(*math));
            let lesson = (Lesson { vertices, ray, throughput, rng: old(rng)@ });
            let lit = rules.lesson_at(*cfg, bounce, lesson);
            assert(lit.rng == lit_rng);
            assert(lit.ray == ray && lit.throughput == throughput);
        }
    }
    Some(LessonStep { vertex, next })
}

/// The target of the last vertex is its own direct light, undone by what the path
/// lets through; every other target includes all later vertices.
pub proof fn law_targets_build_on_later_ones(rules: ArithRules, vertices: Seq<VertexView>, n: int)
    requires
        0 <= n < vertices.len(),
    ensures
        rules.suffix(vertices, n) == rules.plus(
            rules.suffix(vertices, n + 1),
            rules.times(vertices[n].throughput, vertices[n].direct),
        ),
        rules.suffix(vertices, vertices.len() as int) == black(),
{
}

/// Whether a path lets so much through in a channel that a target is divided by it.
pub open spec fn lets_through(t: Scalar) -> bool {
    (Scalar { key: MIN_THROUGHPUT_KEY }).lt(t) && t.is_finite()
}

/// Whether a path lets so much through in every channel that a target is divided by
/// it.
pub open spec fn lets_all_through(t: Color) -> bool {
    lets_through(t.x) && lets_through(t.y) && lets_through(t.z)
}

impl ArithRules {
    /// Whether what a path lets through, as a factor, can be undone by dividing, and
    /// dividing by it can be undone by multiplying.
    pub open spec fn undoes_throughput(self, s: Scalar, t: Scalar) -> bool {
        Scalar::zero().le(self.quotient(s, t)) && self.product(self.quotient(s, t), t) == s
    }

    /// Whether what the vertices from one on bring can be divided by what gets
    /// through to it, and multiplied again.
    pub open spec fn undoes_throughputs(self, vertices: Seq<VertexView>, n: int) -> bool {
        let s = self.suffix(vertices, n);
        let t = vertices[n].throughput;
        self.undoes_throughput(s.x, t.x) && self.undoes_throughput(s.y, t.y) && self.undoes_throughput(s.z, t.z)
    }
}

/// The target of the last vertex is its direct light, whatever the path let through
/// up to it, wherever a factor can be undone by dividing.
pub proof fn law_last_target_is_the_direct_light(rules: ArithRules, vertices: Seq<VertexView>)
    requires
        vertices.len() > 0,
        rules.keeps_zeros(),
        ({
            let v = vertices.last();
            &&& lets_all_through(v.throughput)
            &&& v.direct.is_finite()
            &&& black().at_most(v.direct)
            &&& rules.times(v.throughput, v.direct).is_finite()
            &&& rules.quotient(rules.product(v.throughput.x, v.direct.x), v.throughput.x) == v.direct.x
            &&& rules.quotient(rules.product(v.throughput.y, v.direct.y), v.throughput.y) == v.direct.y
            &&& rules.quotient(rules.product(v.throughput.z, v.direct.z), v.throughput.z) == v.direct.z
        }),
    ensures
        rules.target(vertices, vertices.len() - 1) == seq![
            vertices.last().direct.x,
            vertices.last().direct.y,
            vertices.last().direct.z,
        ],
{
    let n = vertices.len() - 1;
    let v = vertices.last();
    assert(rules.suffix(vertices, n + 1) == black());
    let brought = rules.times(v.throughput, v.direct);
    assert(rules.plus(black(), brought) == brought) by {
        assert(rules.sum(Scalar::zero(), brought.x) == brought.x);
        assert(rules.sum(Scalar::zero(), brought.y) == brought.y);
        assert(rules.sum(Scalar::zero(), brought.z) == brought.z);
    }
    assert(rules.suffix(vertices, n) == rules.times(vertices[n].throughput, vertices[n].direct));
}

/// A target, as a color.
pub open spec fn target_color(target: Seq<Scalar>) -> Color {
    Color { x: target[0], y: target[1], z: target[2] }
}

/// Targets are the radiance that comes in at their vertices: what a path lets
/// through, times the target, is what it lets through times the direct light, and
/// what the rest of the path brings, which is what it lets through to the next
/// vertex times the target there.
pub proof fn law_target_is_light_from_here_on(rules: ArithRules, vertices: Seq<VertexView>, n: int)
    requires
        0 <= n < vertices.len() - 1,
        lets_all_through(vertices[n].throughput),
        lets_all_through(vertices[n + 1].throughput),
        rules.undoes_throughputs(vertices, n),
        rules.undoes_throughputs(vertices, n + 1),
    ensures
        rules.times(target_color(rules.target(vertices, n)), vertices[n].throughput) == rules.plus(
            rules.times(target_color(rules.target(vertices, n + 1)), vertices[n + 1].throughput),
            rules.times(vertices[n].throughput, vertices[n].direct),
        ),
{
    reveal_with_fuel(ArithRules::suffix, 3);
    let s = rules.suffix(vertices, n);
    let t = vertices[n].throughput;
    assert(rules.undone(s.x, t.x) == rules.quotient(s.x, t.x));
    assert(rules.undone(s.y, t.y) == rules.quotient(s.y, t.y));
    assert(rules.undone(s.z, t.z) == rules.quotient(s.z, t.z));
    let s1 = rules.suffix(vertices, n + 1);
    let t1 = vertices[n + 1].throughput;
    assert(rules.undone(s1.x, t1.x) == rules.quotient(s1.x, t1.x));
    assert(rules.undone(s1.y, t1.y) == rules.quotient(s1.y, t1.y));
    assert(rules.undone(s1.z, t1.z) == rules.quotient(s1.z, t1.z));
}

/// A target is never negative, and zero where hardly anything gets through.
pub proof fn law_target_is_not_negative(rules: ArithRules, vertices: Seq<VertexView>, n: int)
    ensures
        black().at_most(target_color(rules.target(vertices, n))),
        !(Scalar { key: MIN_THROUGHPUT_KEY }).lt(vertices[n].throughput.x) ==> rules.target(vertices, n)[0]
            == Scalar::zero(),
        !(Scalar { key: MIN_THROUGHPUT_KEY }).lt(vertices[n].throughput.y) ==> rules.target(vertices, n)[1]
            == Scalar::zero(),
        !(Scalar { key: MIN_THROUGHPUT_KEY }).lt(vertices[n].throughput.z) ==> rules.target(vertices, n)[2]
            == Scalar::zero(),
{
}

/// A training path learns nothing at the surface that the camera sees. At each
/// later one it learns one vertex: of the ray that led there, with what the path
/// let through up to there and the light that is sampled there with both techniques.
pub proof fn law_lessons_start_at_the_second_surface(rules: TraceRules, cfg: PathTracerConfig, bounce: u32, lesson: Lesson)
    requires
        rules.is_lesson(cfg, lesson.ray),
    ensures
        ({
            let next = rules.lesson_at(cfg, bounce, lesson);
            let surf = rules.arith.surface(rules.hit(*cfg.bvh, lesson.ray)->0, lesson.ray, *cfg.bvh, *cfg.scene);
            let lit = rules.direct(
                cfg,
                SamplingStrategy::Mis,
                shading_point(surf, lesson.ray.dir.negated()),
                lesson.rng,
            );
            &&& next.ray == lesson.ray
            &&& next.throughput == lesson.throughput
            &&& bounce == 0 ==> next == lesson
            &&& bounce > 0 ==> {
                &&& next.vertices.len() == lesson.vertices.len() + 1
                &&& next.vertices.drop_last() == lesson.vertices
                &&& next.vertices.last().throughput == lesson.throughput
                &&& next.vertices.last().direct == lit.total
                &&& next.vertices.last().input == rules.arith.features(
                    lesson.ray.org,
                    lesson.ray.dir,
                    cfg.bvh.bounds_min,
                    cfg.bvh.bounds_max,
                )
                &&& next.rng == lit.rng
            }
        }),
{
    let next = rules.lesson_at(cfg, bounce, lesson);
    if bounce > 0 {
        assert(next.vertices.drop_last() =~= lesson.vertices);
    }
}

} // verus!
