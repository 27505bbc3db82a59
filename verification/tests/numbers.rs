//! Numbers, tables, schedules and reports, with the arithmetic of the machine.
use rnpt::aabb::AABB;
use rnpt::arith::Arith;
use rnpt::assets::{list_assets, list_by_ext, list_hdris, Entry};
use rnpt::bench_report::{
    make_record, names_estimate, parse_mean_ns, print_table, ratio_color, read_record, Data, Line, RayKind, Record,
    SceneKind, Tone,
};
use rnpt::distribution::{Distribution1D, Distribution2D};
use rnpt::double::{Double, PreciseArith};
use rnpt::oxyde;
use rnpt::panorama::{check_chain, load_hdr, to_panorama};
use rnpt::pcg32::{unit_scalar, Pcg32};
use rnpt::reservoir::Reservoir;
use rnpt::scalar::{Point3, Scalar};
use rnpt::schedule::{check_picture, tile, worker_tiles, Action, Outcome, Pass, Versions};
use rnpt::stats::{average_samples, shown_rate, throughput, RateUnit, Rates};
use rnpt::tracer::config::Pixel;

fn s(x: f32) -> Scalar {
    Scalar::from_bits(x.to_bits())
}

fn f(x: Scalar) -> f32 {
    f32::from_bits(x.to_bits())
}

fn point(p: [f32; 3]) -> Point3 {
    Point3 { x: s(p[0]), y: s(p[1]), z: s(p[2]) }
}

fn coords(p: Point3) -> [f32; 3] {
    [f(p.x), f(p.y), f(p.z)]
}

/// Single-precision arithmetic of the machine.
struct Machine;

impl Arith for Machine {
    fn sum(&self, a: Scalar, b: Scalar) -> Scalar {
        s(f(a) + f(b))
    }

    fn difference(&self, a: Scalar, b: Scalar) -> Scalar {
        s(f(a) - f(b))
    }

    fn product(&self, a: Scalar, b: Scalar) -> Scalar {
        s(f(a) * f(b))
    }

    fn quotient(&self, a: Scalar, b: Scalar) -> Scalar {
        s(f(a) / f(b))
    }

    fn fused(&self, a: Scalar, b: Scalar, c: Scalar) -> Scalar {
        s(f(a).mul_add(f(b), f(c)))
    }

    fn root(&self, a: Scalar) -> Scalar {
        s(f(a).sqrt())
    }

    fn sine(&self, a: Scalar) -> Scalar {
        s(f(a).sin())
    }

    fn cosine(&self, a: Scalar) -> Scalar {
        s(f(a).cos())
    }

    fn slope(&self, a: Scalar) -> Scalar {
        s(f(a).tan())
    }

    fn arc_cosine(&self, a: Scalar) -> Scalar {
        s(f(a).acos())
    }

    fn arc_tangent(&self, y: Scalar, x: Scalar) -> Scalar {
        s(f(y).atan2(f(x)))
    }

    fn power(&self, a: Scalar, b: Scalar) -> Scalar {
        s(f(a).powf(f(b)))
    }

    fn whole_power(&self, a: Scalar, n: i32) -> Scalar {
        s(f(a).powi(n))
    }

    fn wrapped(&self, a: Scalar, b: Scalar) -> Scalar {
        s(f(a).rem_euclid(f(b)))
    }

    fn floor(&self, a: Scalar) -> Scalar {
        s(f(a).floor())
    }

    fn exponential(&self, a: Scalar) -> Scalar {
        s(f(a).exp())
    }

    fn logarithm(&self, a: Scalar) -> Scalar {
        s(f(a).ln())
    }

    fn of_count(&self, n: usize) -> Scalar {
        s(n as f32)
    }

    fn to_count(&self, a: Scalar) -> usize {
        f(a) as usize
    }

    fn of_index(&self, n: i32) -> Scalar {
        s(n as f32)
    }

    fn to_index(&self, a: Scalar) -> i32 {
        f(a) as i32
    }

    fn to_natural(&self, a: Scalar) -> u32 {
        f(a) as u32
    }

    fn inner(&self, a: &Vec<Scalar>, b: &Vec<Scalar>) -> Scalar {
        s(a.iter().zip(b).map(|(x, y)| f(*x) * f(*y)).sum())
    }
}

fn d(x: f64) -> Double {
    Double::from_bits(x.to_bits())
}

fn g(x: Double) -> f64 {
    f64::from_bits(x.to_bits())
}

impl PreciseArith for Machine {
    fn precise_sum(&self, a: Double, b: Double) -> Double {
        d(g(a) + g(b))
    }

    fn precise_product(&self, a: Double, b: Double) -> Double {
        d(g(a) * g(b))
    }

    fn precise_quotient(&self, a: Double, b: Double) -> Double {
        d(g(a) / g(b))
    }

    fn precise_count(&self, n: u64) -> Double {
        d(n as f64)
    }

    fn seconds(&self, nanoseconds: u64) -> Double {
        d(std::time::Duration::from_nanos(nanoseconds).as_secs_f64())
    }
}

#[test]
fn scalars_keep_their_patterns() {
    for x in [0.0f32, 1.0, -1.0, 1e-40, -3.0e38, f32::INFINITY, f32::NEG_INFINITY, f32::MIN_POSITIVE] {
        assert_eq!(f(s(x)).to_bits(), x.to_bits());
    }
    assert_eq!(f(s(-0.0)).to_bits(), 0);
    assert!(f(Scalar::nan()).is_nan());
    assert_eq!(f(Scalar::one()), 1.0);
    assert_eq!(f(Scalar::max_finite()), f32::MAX);
    assert_eq!(f(Scalar::neg_infinity()), f32::NEG_INFINITY);
}

#[test]
fn scalars_are_ordered_like_numbers() {
    let xs = [f32::NEG_INFINITY, -2.0, -1e-40, 0.0, 1e-40, 2.0, f32::INFINITY, f32::NAN];
    for a in xs {
        for b in xs {
            assert_eq!(s(a).lt(s(b)), a < b);
            assert_eq!(s(a).le(s(b)), a <= b);
            if !a.is_nan() && !b.is_nan() {
                assert_eq!(f(s(a).min(s(b))), a.min(b));
                assert_eq!(f(s(a).max(s(b))), a.max(b));
            }
        }
        assert_eq!(s(a).is_nan(), a.is_nan());
        assert_eq!(s(a).is_finite(), a.is_finite());
    }
    assert_eq!(f(s(-3.0).magnitude()), 3.0);
    assert_eq!(f(s(3.0).negated()), -3.0);
    assert_eq!(f(s(3.0).clamped(s(-1.0), s(1.0))), 1.0);
    assert_eq!(f(s(f32::NAN).min(s(2.0))), 2.0);
}

#[test]
fn doubles_keep_their_patterns_and_order() {
    let xs = [f64::NEG_INFINITY, -2.0, 0.0, 1e-300, 2.0, f64::INFINITY, f64::NAN];
    for a in xs {
        assert_eq!(g(d(a)).to_bits(), a.to_bits());
        for b in xs {
            assert_eq!(d(a).lt(d(b)), a < b);
            assert_eq!(d(a).le(d(b)), a <= b);
        }
    }
    assert_eq!(g(d(-0.0)).to_bits(), 0);
}

#[test]
fn generator_gives_the_published_numbers() {
    let mut rng = Pcg32::from_seed_128((42u128 << 64) | 54);
    let drawn: Vec<u32> = (0..6).map(|_| rng.next_u32()).collect();
    assert_eq!(drawn, [0xa15c02b7, 0x7b47f409, 0xba1d3330, 0x83d2f293, 0xbfa4784b, 0xcbed606e]);
}

#[test]
fn generator_from_two_seeds_steps_once() {
    let mut rng = Pcg32::from_seed(42, 54);
    let state = 42u64.wrapping_mul(6364136223846793005).wrapping_add(109);
    let mixed = (((state >> 18) ^ state) >> 27) as u32;
    assert_eq!(rng.next_u32(), mixed.rotate_right((state >> 59) as u32));
}

#[test]
fn fractions_stay_below_one() {
    assert_eq!(f(unit_scalar(0)), 0.0);
    assert_eq!(f(unit_scalar(1 << 31)), 0.5);
    assert_eq!(f(unit_scalar(u32::MAX)), 1.0 - f32::EPSILON / 2.0);
    let mut rng = Pcg32::from_seed_128(3);
    for _ in 0..1000 {
        let x = f(rng.next_f32());
        assert!((0.0..1.0).contains(&x));
    }
}

#[test]
fn boxes_grow_around_points() {
    let mut b = AABB::invalid();
    b.extend(point([1.0, -2.0, 3.0]));
    assert_eq!((coords(b.min), coords(b.max)), ([1.0, -2.0, 3.0], [1.0, -2.0, 3.0]));
    b.extend(point([0.0, 5.0, 3.0]));
    let mut c = AABB::invalid();
    c.extend(point([9.0, 0.0, -1.0]));
    b.extend_aabb(&c);
    assert_eq!((coords(b.min), coords(b.max)), ([0.0, -2.0, -1.0], [9.0, 5.0, 3.0]));
    assert_eq!(coords(b.center(&Machine)), [4.5, 1.5, 1.0]);
    assert_eq!(f(b.surface_area(&Machine)), 2.0 * (9.0 * 7.0 + 7.0 * 4.0 + 4.0 * 9.0));
    assert_eq!(f(AABB::invalid().surface_area(&Machine)), 0.0);
}

#[test]
fn picks_follow_the_weights() {
    let dist = Distribution1D::new(&Machine, &vec![s(1.0), s(0.0), s(3.0)]);
    assert_eq!(f(dist.integral()), 4.0);
    let low = dist.sample(&Machine, s(0.125));
    assert_eq!((low.bin, f(low.x)), (0, 0.5 / 3.0));
    assert_eq!(f(low.pdf), 0.75);
    let high = dist.sample(&Machine, s(0.25));
    assert_eq!(high.bin, 2);
    assert_eq!(f(high.pdf), 2.25);
    assert_eq!(f(dist.pdf(&Machine, s(0.5))), 0.0);
    assert_eq!(f(dist.pdf(&Machine, s(0.99))), 2.25);
}

#[test]
fn no_weight_is_even_weight() {
    let dist = Distribution1D::new(&Machine, &vec![s(0.0); 4]);
    for (u, bin) in [(0.0, 0), (0.3, 1), (0.6, 2), (0.9, 3)] {
        assert_eq!(dist.sample(&Machine, s(u)).bin, bin);
    }
}

#[test]
fn grids_are_picked_by_row_and_column() {
    let weights = [0.0, 0.0, 0.0, 1.0].map(s).to_vec();
    let dist = Distribution2D::new(&Machine, &weights, 2, 2);
    let p = dist.sample(&Machine, s(0.5), s(0.5));
    assert!(f(p.u) >= 0.5 && f(p.v) >= 0.5);
    assert_eq!(f(p.pdf), 4.0);
    assert_eq!(f(dist.pdf(&Machine, s(0.75), s(0.75))), 4.0);
    assert_eq!(f(dist.pdf(&Machine, s(0.75), s(0.25))), 0.0);
}

#[test]
fn first_candidate_fills_a_reservoir() {
    let mut r = Reservoir::default();
    assert!(!r.is_valid());
    let mut rng = Pcg32::from_seed_128(0);
    r.update(&Machine, point([1.0; 3]), point([2.0; 3]), s(3.0), &mut rng);
    assert!(r.is_valid());
    assert_eq!((coords(r.light_pos), coords(r.li), f(r.w_sum), r.m), ([1.0; 3], [2.0; 3], 3.0, 1));
    assert_eq!(f(r.big_w(&Machine, s(1.5))), 2.0);
    assert_eq!(f(r.big_w(&Machine, s(0.0))), 0.0);
}

#[test]
fn workers_share_all_tiles() {
    let mut next = 0;
    for w in 0..3 {
        let (start, end) = worker_tiles(1000, 300, 3, w);
        assert_eq!(start, next);
        assert_eq!(end - start, 8);
        next = end;
    }
    assert_eq!(next, 24);
    let last = tile(1000, 300, 23);
    assert_eq!((last.start_x, last.end_x, last.start_y, last.end_y), (896, 1000, 256, 300));
}

/// Runs a worker to its end and counts what it does.
fn run(width: usize, height: usize, workers: usize, worker: usize, stop_after: usize) -> (Vec<usize>, u64, usize, usize) {
    let mut pass = Pass::new(width, height, workers, worker);
    let mut outcome = Outcome { stop: false, real_rays: 0, shadow_rays: 0 };
    let (mut seen, mut reported, mut trained, mut refreshed) = (vec![], 0, 0, 0);
    loop {
        let action = pass.step(outcome);
        outcome = Outcome { stop: seen.len() >= stop_after, real_rays: 0, shadow_rays: 0 };
        match action {
            Action::Look => {}
            Action::Report { rays, real_rays, shadow_rays } => {
                assert_eq!((real_rays, shadow_rays), (2 * rays, 3 * rays));
                reported += rays;
            }
            Action::Refresh => refreshed += 1,
            Action::Sample { x, y, index } => {
                assert_eq!(index, y * width + x);
                seen.push(index);
                outcome.real_rays = 2;
                outcome.shadow_rays = 3;
            }
            Action::Train { .. } => trained += 1,
            Action::End => return (seen, reported, trained, refreshed),
        }
    }
}

#[test]
fn every_pixel_is_rendered_once() {
    let mut all = vec![];
    for w in 0..3 {
        let (seen, reported, trained, refreshed) = run(300, 200, 3, w, usize::MAX);
        assert_eq!(reported, seen.len() as u64);
        assert_eq!(trained, seen.len() / 64);
        assert_eq!(refreshed, seen.len() / 512);
        all.extend(seen);
    }
    all.sort();
    assert_eq!(all, (0..300 * 200).collect::<Vec<_>>());
}

#[test]
fn a_stopped_worker_reports_what_it_did() {
    let (seen, reported, _, _) = run(300, 200, 1, 0, 1);
    assert_eq!(seen.len(), 128);
    assert_eq!(reported, 128);
}

#[test]
fn workers_take_over_what_is_new() {
    let mut v = Versions::new();
    assert!(v.take_scene(1, 0));
    assert!(!v.take_scene(1, 5));
    assert!(!v.take_network(0));
    assert!(v.take_network(5));
    assert!(!v.take_network(5));
    assert!(!v.is_stale(1, true));
    assert!(v.is_stale(2, true) && v.is_stale(1, false));
}

#[test]
fn throughput_is_per_second() {
    let r = throughput(&Machine, Rates { paths: 1000, rays: 3000, shadow_rays: 1000, elapsed: 500_000_000 });
    assert_eq!(g(r.paths_per_sec), 2000.0);
    assert_eq!(g(r.rays_per_sec), 6000.0);
    assert_eq!(g(r.total_rays_per_sec), 8000.0);
    assert_eq!(g(r.shadow_pct), 25.0);
    assert_eq!(g(r.rays_per_path), 4.0);
    let none = throughput(&Machine, Rates::none());
    assert_eq!((g(none.paths_per_sec), g(none.shadow_pct), g(none.rays_per_path)), (0.0, 0.0, 0.0));
}

#[test]
fn rates_are_shown_in_their_unit() {
    let m = shown_rate(&Machine, d(2_500_000.0));
    assert_eq!((g(m.value), m.unit), (2.5, RateUnit::Mega));
    let k = shown_rate(&Machine, d(1000.0));
    assert_eq!((g(k.value), k.unit), (1.0, RateUnit::Kilo));
    let p = shown_rate(&Machine, d(999.0));
    assert_eq!((g(p.value), p.unit), (999.0, RateUnit::Plain));
}

#[test]
fn samples_are_averaged() {
    let pixel = |samples| Pixel { accumulated_radiance: point([0.0; 3]), samples };
    assert_eq!(g(average_samples(&Machine, &vec![pixel(1), pixel(2), pixel(6)])), 3.0);
    assert_eq!(g(average_samples(&Machine, &vec![])), 0.0);
}

fn entry(name: &str, is_file: bool) -> Entry {
    Entry { name: name.as_bytes().to_vec(), is_file }
}

#[test]
fn files_are_listed_by_extension_and_name() {
    let entries = vec![
        entry("b.glb", true),
        entry("a.GLTF", true),
        entry("sky.hdr", true),
        entry("dir.glb", false),
        entry(".glb", true),
        entry("glb", true),
        entry("c.glb.txt", true),
        entry("a.glb", true),
        entry("Sky.HDR", true),
    ];
    let names = |v: Vec<Vec<u8>>| v.into_iter().map(|n| String::from_utf8(n).unwrap()).collect::<Vec<_>>();
    assert_eq!(names(list_assets(&entries)), ["a.GLTF", "a.glb", "b.glb"]);
    assert_eq!(names(list_hdris(&entries)), ["Sky.HDR", "sky.hdr"]);
    assert_eq!(names(list_by_ext(&entries, &vec![b"txt".to_vec()])), ["c.glb.txt"]);
    assert!(list_by_ext(&vec![], &vec![b"txt".to_vec()]).is_empty());
}

#[test]
fn environment_pictures_are_decoded() {
    let mut bytes = b"#?RADIANCE\nFORMAT=32-bit_rle_rgbe\n\n-Y 1 +X 2\n".to_vec();
    bytes.extend([128, 64, 32, 129, 0, 0, 0, 0]);
    let p = load_hdr(&bytes).unwrap();
    assert_eq!((p.width, p.height), (2, 1));
    assert_eq!(coords(p.pixels[0]), [1.0, 0.5, 0.25]);
    assert_eq!(coords(p.pixels[1]), [0.0, 0.0, 0.0]);
    assert!(load_hdr(&b"no picture".to_vec()).is_none());
}

#[test]
fn long_chains_of_markers_are_not_read() {
    let header = b"#?RADIANCE\nFORMAT=32-bit_rle_rgbe\n\n-Y 1 +X 4\n";
    let mut run = header.to_vec();
    run.extend([128, 64, 32, 129, 1, 1, 1, 3]);
    assert!(!check_chain(&run));
    let p = load_hdr(&run).unwrap();
    assert_eq!(p.pixels.iter().map(|c| coords(*c)).collect::<Vec<_>>(), vec![[1.0, 0.5, 0.25]; 4]);
    let mut chain = header.to_vec();
    chain.extend([128, 64, 32, 129]);
    for _ in 0..8 {
        chain.extend([1, 1, 1, 0]);
    }
    assert!(check_chain(&chain));
    assert!(load_hdr(&chain).is_none());
    let n = usize::BITS as usize / 8;
    let markers = |n: usize| [1, 1, 1, 0].repeat(n);
    assert!(!check_chain(&markers(n - 1)) && check_chain(&markers(n)));
    assert!(!check_chain(&markers(n)[..4 * n - 1].to_vec()));
    let mut wide = markers(n);
    wide[19] = 1;
    assert_eq!(check_chain(&wide), n < 6);
    let mut short = header.to_vec();
    short.extend([128, 64, 32, 129]);
    short.extend([1, 1, 1, 0, 1, 1, 1, 0, 1, 1, 1, 0, 2, 3, 4, 129, 1, 1, 1, 2]);
    let p = load_hdr(&short).unwrap();
    assert_eq!(coords(p.pixels[1]), coords(p.pixels[3]));
    assert_ne!(coords(p.pixels[0]), coords(p.pixels[1]));
}

#[test]
fn packed_rows_of_ones_are_read() {
    let mut packed = b"#?RADIANCE\nFORMAT=32-bit_rle_rgbe\n\n-Y 1 +X 16\n".to_vec();
    packed.extend([2, 2, 0, 16]);
    for _ in 0..4 {
        packed.push(16);
        packed.extend([1; 16]);
    }
    let p = load_hdr(&packed);
    assert_eq!(p.is_some(), usize::BITS == 64);
    if let Some(p) = p {
        assert_eq!((p.width, p.height, p.pixels.len()), (16, 1, 16));
        assert!(p.pixels.iter().all(|c| coords(*c) == coords(p.pixels[0])));
    }
}

#[test]
fn empty_bins_are_skipped_and_places_stay_in_order() {
    let dist = Distribution1D::new(&Machine, &vec![s(0.0), s(1.0), s(0.0), s(0.0), s(2.5), s(0.25), s(0.0)]);
    let mut last = -1.0;
    for i in 0..4096 {
        let p = dist.sample(&Machine, s(i as f32 / 4096.0));
        assert!([1, 4, 5].contains(&p.bin), "{}", p.bin);
        assert!(f(p.x) >= last);
        last = f(p.x);
    }
}

#[test]
fn streams_in_different_states_stay_apart() {
    let mut a = Pcg32::from_seed(1, 7);
    let mut b = Pcg32::from_seed(2, 7);
    let first: Vec<u32> = (0..8).map(|_| a.next_u32()).collect();
    let second: Vec<u32> = (0..8).map(|_| b.next_u32()).collect();
    assert_ne!(first, second);
}

#[test]
fn large_pictures_are_refused() {
    assert!(check_picture(1920, 1080) && check_picture(0, 0));
    assert!(!check_picture(usize::MAX, 1) && !check_picture(1 << 40, 1 << 40));
}

#[test]
fn pictures_need_all_their_numbers() {
    let bits: Vec<u32> = [1.0f32, 2.0, 3.0, 4.0, 5.0, 6.0].iter().map(|x| x.to_bits()).collect();
    let p = to_panorama(1, 2, &bits).unwrap();
    assert_eq!(coords(p.pixels[1]), [4.0, 5.0, 6.0]);
    assert!(to_panorama(3, 1, &bits).is_none());
    assert!(to_panorama(usize::MAX, 2, &bits).is_none());
}

fn parts(names: [&str; 5]) -> Vec<String> {
    names.iter().map(|n| n.to_string()).collect()
}

#[test]
fn means_are_read_from_their_files() {
    let text = "{\"mean\": {\"point_estimate\": 2048.5}}".to_string();
    assert_eq!(g(parse_mean_ns(&text).unwrap()), 2048.5);
    assert!(parse_mean_ns(&"{\"mean\": {}}".to_string()).is_none());
    assert!(parse_mean_ns(&"{\"mean\": {\"point_estimate\": \"x\"}}".to_string()).is_none());
    assert!(parse_mean_ns(&"mean".to_string()).is_none());
}

#[test]
fn measurements_become_records() {
    let path = parts(["coherent_hf", "rnpt", "100k", "new", "estimates.json"]);
    let text = "{\"mean\": {\"point_estimate\": 1024}}".to_string();
    let r = read_record(&Machine, &path, &text).unwrap();
    assert_eq!((r.group.as_str(), r.implementation.as_str(), r.size.as_str()), ("coherent_hf", "rnpt", "100k"));
    assert!((g(r.mrays) - 1000.0).abs() < 1e-9);
    let old = parts(["coherent_hf", "rnpt", "100k", "base", "estimates.json"]);
    assert!(read_record(&Machine, &old, &text).is_none());
    assert!(!names_estimate(&old));
    assert!(!names_estimate(&parts(["g", "i", "s", "new", "sample.json"])));
    assert!(make_record(&Machine, &path, None).is_none());
    assert_eq!(g(make_record(&Machine, &path, Some(d(2048.0))).unwrap().mrays), 1024.0 / (2048.0 / 1e9) / 1e6);
}

fn record(group: &str, implementation: &str, size: &str, mrays: f64) -> Record {
    Record { group: group.into(), implementation: implementation.into(), size: size.into(), mrays: d(mrays) }
}

#[test]
fn the_latest_measurement_counts() {
    let mut data = Data::new();
    assert!(data.is_empty());
    data.insert(record("shadow_hf", "rnpt", "1m", 5.0));
    data.insert(record("shadow_hf", "embree", "1m", 10.0));
    data.insert(record("shadow_hf", "rnpt", "1m", 7.0));
    let get = |i: &str| data.get(&"shadow_hf".to_string(), &i.to_string(), &"1m".to_string());
    assert_eq!(get("rnpt").map(g), Some(7.0));
    assert_eq!(get("embree").map(g), Some(10.0));
    assert!(get("embree1").is_none());
}

#[test]
fn tables_name_each_scene_once() {
    let mut data = Data::new();
    data.insert(record("coherent_hf", "embree1", "100k", 100.0));
    data.insert(record("coherent_hf", "rnpt", "100k", 90.0));
    data.insert(record("coherent_hf", "rnpt", "10m", 40.0));
    data.insert(record("shadow_cluster", "embree", "1m", 10.0));
    data.insert(record("shadow_cluster", "rnpt", "1m", 7.0));
    let lines = print_table(&Machine, &data);
    let row = |i: usize| match lines[i] {
        Line::Result(r) => r,
        _ => panic!("line {i} is no result"),
    };
    assert_eq!(lines[0], Line::Rule);
    assert_eq!((row(1).ray, row(1).scene, row(1).size, row(1).labelled), (RayKind::Coherent, SceneKind::HeightField, 0, true));
    assert_eq!((row(1).percent.map(g), row(1).tone), (Some(90.0), Tone::Green));
    assert_eq!((row(2).size, row(2).labelled, row(2).reference, row(2).tone), (2, false, None, Tone::Plain));
    assert_eq!(lines[3..6], [Line::DoubleRule, Line::DoubleRule, Line::Rule]);
    assert_eq!((row(6).labelled, row(6).tone), (false, Tone::Yellow));
    assert_eq!(lines[7..], [Line::Rule]);
    assert_eq!(print_table(&Machine, &Data::new()), [Line::DoubleRule, Line::DoubleRule, Line::Rule]);
}

#[test]
fn results_are_toned_by_their_share() {
    let tone = |r: f64, e: f64| ratio_color(&Machine, Some(d(r)), Some(d(e)));
    assert_eq!(tone(85.0, 100.0), Tone::Green);
    assert_eq!(tone(84.9, 100.0), Tone::Yellow);
    assert_eq!(tone(65.0, 100.0), Tone::Yellow);
    assert_eq!(tone(64.9, 100.0), Tone::Red);
    assert_eq!(tone(1.0, 0.0), Tone::Plain);
    assert_eq!(ratio_color(&Machine, None, Some(d(1.0))), Tone::Plain);
}

#[test]
fn stand_in_pixels_add_up() {
    let mut pixel = oxyde::Pixel::default();
    let camera = oxyde::CameraConfig::default();
    oxyde::sample_pixel(&Machine, 1, 2, 4, 8, &camera, &mut pixel);
    let (u, v) = (0.25f32, 0.25f32);
    assert_eq!(f(pixel.r), 0.5 + 0.5 * (0.0 + u * 6.28).sin() * (0.0 + v * 6.28).cos());
    assert_eq!(f(pixel.g), 0.1 * u.cos().abs());
    assert_eq!(f(pixel.b), 0.1 * (60.0f32.to_radians() + v).sin().abs());
    let once = f(pixel.g);
    oxyde::sample_pixel(&Machine, 1, 2, 4, 8, &camera, &mut pixel);
    assert_eq!(pixel.samples, 2);
    assert_eq!(f(pixel.g), 2.0 * once);
}
