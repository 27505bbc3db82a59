//! What is reported of a benchmark: how many rays each tree traces in a second,
//! next to the tree it is measured against.
use vstd::prelude::*;
use crate::double::{key_of_double, Double, PreciseArith, PreciseRules};
use crate::stats::{HUNDRED_KEY, MILLION_KEY};

verus! {

/// Key of the number of rays of a measurement.
pub const RAYS_KEY: i64 = 0x4090_0000_0000_0000;

/// Key of the number of nanoseconds in a second.
pub const BILLION_KEY: i64 = 0x41cd_cd65_0000_0000;

/// Key of the share from which on a result is good.
pub const GOOD_KEY: i64 = 0x3feb_3333_3333_3333;

/// Key of the share from which on a result is fair.
pub const FAIR_KEY: i64 = 0x3fe4_cccc_cccc_cccd;

/// Number of scene sizes.
pub const SIZES: usize = 3;

/// What was measured: a group, an implementation and a scene size, and the
/// millions of rays per second.
pub struct Record {
    pub group: String,
    pub implementation: String,
    pub size: String,
    pub mrays: Double,
}

/// All that was measured, the latest last.
pub struct Data {
    pub records: Vec<Record>,
}

/// The rays that were traced.
#[derive(Clone, Copy, PartialEq, Eq, Structural, Debug)]
pub enum RayKind {
    Coherent,
    Incoherent,
    Shadow,
}

/// The scenes they were traced in.
#[derive(Clone, Copy, PartialEq, Eq, Structural, Debug)]
pub enum SceneKind {
    HeightField,
    Cluster,
}

/// How a result compares.
#[derive(Clone, Copy, PartialEq, Eq, Structural, Debug)]
pub enum Tone {
    Green,
    Yellow,
    Red,
    /// There is nothing to compare.
    Plain,
}

/// A line of results.
#[derive(Clone, Copy, PartialEq, Eq, Structural, Debug)]
pub struct Row {
    pub ray: RayKind,
    pub scene: SceneKind,
    /// Which size, from the smallest.
    pub size: usize,
    /// Whether the line names its rays and scene.
    pub labelled: bool,
    pub reference: Option<Double>,
    pub rnpt: Option<Double>,
    /// The result over the reference, in percent.
    pub percent: Option<Double>,
    pub tone: Tone,
}

/// A line of the table.
#[derive(Clone, Copy, PartialEq, Eq, Structural, Debug)]
pub enum Line {
    /// A rule between kinds of rays.
    DoubleRule,
    /// A rule above a scene, and below the table.
    Rule,
    Result(Row),
}

/// The bits of the number under two names in a JSON text: that of the inner name,
/// in the object under the outer one. None if the text is no JSON or there is no
/// such number.
pub uninterp spec fn json_number(text: Seq<char>, outer: Seq<char>, inner: Seq<char>) -> Option<u64>;

/// Reads a text with `serde_json::from_str`, and picks the number under two names
/// with the index operator and `as_f64` of `serde_json::Value`. The result is a
/// function of the text and the two names; what it is on a given text is left to
/// serde_json.
#[verifier::external_body]
fn read_number(text: &str, outer: &str, inner: &str) -> (r: Option<u64>)
    ensures
        r == json_number(text@, outer@, inner@),
{
    let value: serde_json::Value = serde_json::from_str(text).ok()?;
    value[outer][inner].as_f64().map(|n| n.to_bits())
}

/// The number with a pattern.
pub open spec fn double_of(bits: u64) -> Double {
    Double { key: key_of_double(bits) as i64 }
}

/// The mean of a measurement, in nanoseconds.
pub open spec fn mean_of(text: Seq<char>) -> Option<Double> {
    match json_number(text, "mean"@, "point_estimate"@) {
        Some(bits) => Some(double_of(bits)),
        None => None,
    }
}

/// The mean of a measurement, in nanoseconds, from the text of its file.
pub fn parse_mean_ns(text: &String) -> (r: Option<Double>)
    ensures
        r == mean_of(text@),
{
    match read_number(text.as_str(), "mean", "point_estimate") {
        Some(bits) => Some(Double::from_bits(bits)),
        None => None,
    }
}

/// Whether the parts of a path name the latest measurement: group,
/// implementation, size, "new", "estimates.json".
pub open spec fn is_estimate(parts: Seq<String>) -> bool {
    parts.len() == 5 && parts[3]@ == "new"@ && parts[4]@ == "estimates.json"@
}

/// Whether the parts of a path name the latest measurement.
pub fn names_estimate(parts: &Vec<String>) -> (r: bool)
    ensures
        r == is_estimate(parts@),
{
    parts.len() == 5 && parts[3] == "new".to_owned() && parts[4] == "estimates.json".to_owned()
}

impl PreciseRules {
    /// The millions of rays per second for the mean time of a measurement.
    pub open spec fn mrays(self, ns: Double) -> Double {
        self.quotient(
            self.quotient(Double { key: RAYS_KEY }, self.quotient(ns, Double { key: BILLION_KEY })),
            Double { key: MILLION_KEY },
        )
    }

    /// Whether a measurement becomes a record, and which.
    pub open spec fn is_record(self, r: Option<Record>, parts: Seq<String>, mean: Option<Double>) -> bool {
        match mean {
            Some(ns) if is_estimate(parts) => {
                &&& r matches Some(rec)
                &&& rec.group@ == parts[0]@
                &&& rec.implementation@ == parts[1]@
                &&& rec.size@ == parts[2]@
                &&& rec.mrays == self.mrays(ns)
            },
            _ => r is None,
        }
    }

    /// The result over the reference, if there are both and the reference is not
    /// zero.
    pub open spec fn share(self, rnpt: Option<Double>, reference: Option<Double>) -> Option<Double> {
        match (rnpt, reference) {
            (Some(r), Some(e)) if Double::zero().lt(e) => Some(self.quotient(r, e)),
            _ => None,
        }
    }

    /// How a result compares with its reference.
    pub open spec fn tone(self, rnpt: Option<Double>, reference: Option<Double>) -> Tone {
        match self.share(rnpt, reference) {
            Some(share) => if (Double { key: GOOD_KEY }).le(share) {
                Tone::Green
            } else if (Double { key: FAIR_KEY }).le(share) {
                Tone::Yellow
            } else {
                Tone::Red
            },
            None => Tone::Plain,
        }
    }

    /// A result over its reference, in percent.
    pub open spec fn percent(self, rnpt: Option<Double>, reference: Option<Double>) -> Option<Double> {
        match self.share(rnpt, reference) {
            Some(share) => Some(self.product(share, Double { key: HUNDRED_KEY })),
            None => None,
        }
    }

    /// The line for a size, if anything was measured.
    pub open spec fn row(self, data: Seq<Record>, ray: RayKind, scene: SceneKind, size: int) -> Seq<Line> {
        let reference = found(data, group_name(ray, scene), reference_name(ray), size_name(size));
        let rnpt = found(data, group_name(ray, scene), "rnpt"@, size_name(size));
        if reference is None && rnpt is None {
            Seq::empty()
        } else {
            seq![
                Line::Result(
                    Row {
                        ray,
                        scene,
                        size: size as usize,
                        labelled: size == 0,
                        reference,
                        rnpt,
                        percent: self.percent(rnpt, reference),
                        tone: self.tone(rnpt, reference),
                    },
                ),
            ]
        }
    }

    /// The lines for the first `n` sizes.
    pub open spec fn rows(self, data: Seq<Record>, ray: RayKind, scene: SceneKind, n: int) -> Seq<Line>
        decreases n,
    {
        if n <= 0 {
            Seq::empty()
        } else {
            self.rows(data, ray, scene, n - 1) + self.row(data, ray, scene, n - 1)
        }
    }

    /// The lines for a scene: none if nothing was measured in it.
    pub open spec fn scene_lines(self, data: Seq<Record>, ray: RayKind, scene: SceneKind) -> Seq<Line> {
        if has_any(data, ray, scene) {
            seq![Line::Rule] + self.rows(data, ray, scene, SIZES as int)
        } else {
            Seq::empty()
        }
    }

    /// The lines for a kind of rays.
    pub open spec fn ray_lines(self, data: Seq<Record>, ray: RayKind) -> Seq<Line> {
        self.scene_lines(data, ray, SceneKind::HeightField) + self.scene_lines(data, ray, SceneKind::Cluster)
    }

    /// The table.
    pub open spec fn table(self, data: Seq<Record>) -> Seq<Line> {
        self.ray_lines(data, RayKind::Coherent) + seq![Line::DoubleRule] + self.ray_lines(data, RayKind::Incoherent)
            + seq![Line::DoubleRule] + self.ray_lines(data, RayKind::Shadow) + seq![Line::Rule]
    }
}

/// What was measured last for a group, an implementation and a size.
pub open spec fn found(data: Seq<Record>, group: Seq<char>, implementation: Seq<char>, size: Seq<char>) -> Option<Double>
    decreases data.len(),
{
    if data.len() == 0 {
        None
    } else {
        let last = data.last();
        if last.group@ == group && last.implementation@ == implementation && last.size@ == size {
            Some(last.mrays)
        } else {
            found(data.drop_last(), group, implementation, size)
        }
    }
}

/// The name of a group: its rays and its scene.
pub open spec fn group_name(ray: RayKind, scene: SceneKind) -> Seq<char> {
    match (ray, scene) {
        (RayKind::Coherent, SceneKind::HeightField) => "coherent_hf"@,
        (RayKind::Coherent, SceneKind::Cluster) => "coherent_cluster"@,
        (RayKind::Incoherent, SceneKind::HeightField) => "incoherent_hf"@,
        (RayKind::Incoherent, SceneKind::Cluster) => "incoherent_cluster"@,
        (RayKind::Shadow, SceneKind::HeightField) => "shadow_hf"@,
        (RayKind::Shadow, SceneKind::Cluster) => "shadow_cluster"@,
    }
}

/// The implementation that rays are compared with: coherent ones are traced one
/// at a time there too.
pub open spec fn reference_name(ray: RayKind) -> Seq<char> {
    if ray == RayKind::Coherent {
        "embree1"@
    } else {
        "embree"@
    }
}

/// The name of a scene size.
pub open spec fn size_name(size: int) -> Seq<char> {
    if size == 0 {
        "100k"@
    } else if size == 1 {
        "1m"@
    } else {
        "10m"@
    }
}

/// Whether anything was measured for a size of a scene.
pub open spec fn has_size(data: Seq<Record>, ray: RayKind, scene: SceneKind, size: int) -> bool {
    ||| found(data, group_name(ray, scene), "rnpt"@, size_name(size)) is Some
    ||| found(data, group_name(ray, scene), "embree"@, size_name(size)) is Some
    ||| found(data, group_name(ray, scene), "embree1"@, size_name(size)) is Some
}

/// Whether anything was measured in a scene.
pub open spec fn has_any(data: Seq<Record>, ray: RayKind, scene: SceneKind) -> bool {
    exists|size: int| 0 <= size < SIZES && has_size(data, ray, scene, size)
}

/// A record of a measurement, from the parts of its path and its mean. None if the
/// path names no measurement or there is no mean.
pub fn make_record<M: PreciseArith>(math: &M, parts: &Vec<String>, mean: Option<Double>) -> (r: Option<Record>)
    ensures
        r is Some <==> is_estimate(parts@) && mean is Some,
        forall|rules: PreciseRules| #[trigger] rules.describe(*math) ==> rules.is_record(r, parts@, mean),
{
    if !names_estimate(parts) {
        return None;
    }
    match mean {
        Some(ns) => {
            let mrays = math.precise_quotient(
                math.precise_quotient(
                    Double { key: RAYS_KEY },
                    math.precise_quotient(ns, Double { key: BILLION_KEY }),
                ),
                Double { key: MILLION_KEY },
            );
            Some(
                Record {
                    group: parts[0].clone(),
                    implementation: parts[1].clone(),
                    size: parts[2].clone(),
                    mrays,
                },
            )
        },
        None => None,
    }
}

/// A record of a measurement, from the parts of its path and the text of its file.
pub fn read_record<M: PreciseArith>(math: &M, parts: &Vec<String>, text: &String) -> (r: Option<Record>)
    ensures
        r is Some <==> is_estimate(parts@) && mean_of(text@) is Some,
        forall|rules: PreciseRules| #[trigger] rules.describe(*math) ==> rules.is_record(r, parts@, mean_of(text@)),
{
    make_record(math, parts, parse_mean_ns(text))
}

/// The name of a group.
fn make_group_name(ray: RayKind, scene: SceneKind) -> (r: String)
    ensures
        r@ == group_name(ray, scene),
{
    match (ray, scene) {
        (RayKind::Coherent, SceneKind::HeightField) => "coherent_hf".to_owned(),
        (RayKind::Coherent, SceneKind::Cluster) => "coherent_cluster".to_owned(),
        (RayKind::Incoherent, SceneKind::HeightField) => "incoherent_hf".to_owned(),
        (RayKind::Incoherent, SceneKind::Cluster) => "incoherent_cluster".to_owned(),
        (RayKind::Shadow, SceneKind::HeightField) => "shadow_hf".to_owned(),
        (RayKind::Shadow, SceneKind::Cluster) => "shadow_cluster".to_owned(),
    }
}

/// The name of a scene size.
fn make_size_name(size: usize) -> (r: String)
    ensures
        r@ == size_name(size as int),
{
    if size == 0 {
        "100k".to_owned()
    } else if size == 1 {
        "1m".to_owned()
    } else {
        "10m".to_owned()
    }
}

/// The result over the reference.
fn share<M: PreciseArith>(math: &M, rnpt: Option<Double>, reference: Option<Double>) -> (r: Option<Double>)
    ensures
        forall|rules: PreciseRules| #[trigger] rules.describe(*math) ==> r == rules.share(rnpt, reference),
{
    match rnpt {
        Some(a) => match reference {
            Some(e) => if Double::zero().lt(e) {
                Some(math.precise_quotient(a, e))
            } else {
                None
            },
            None => None,
        },
        None => None,
    }
}

/// How a result compares with its reference.
pub fn ratio_color<M: PreciseArith>(math: &M, rnpt: Option<Double>, reference: Option<Double>) -> (r: Tone)
    ensures
        forall|rules: PreciseRules| #[trigger] rules.describe(*math) ==> r == rules.tone(rnpt, reference),
{
    match share(math, rnpt, reference) {
        Some(s) => if (Double { key: GOOD_KEY }).le(s) {
            Tone::Green
        } else if (Double { key: FAIR_KEY }).le(s) {
            Tone::Yellow
        } else {
            Tone::Red
        },
        None => Tone::Plain,
    }
}

impl Data {
    /// Nothing measured.
    pub fn new() -> (r: Data)
        ensures
            r.records@.len() == 0,
    {
        Data { records: Vec::new() }
    }

    /// Whether nothing was measured.
    pub fn is_empty(&self) -> (r: bool)
        ensures
            r == (self.records@.len() == 0),
    {
        self.records.len() == 0
    }

    /// Adds a measurement; it takes the place of an earlier one.
    pub fn insert(&mut self, record: Record)
        ensures
            final(self).records@ == old(self).records@.push(record),
    {
        self.records.push(record);
    }

    /// What was measured for a group, an implementation and a size.
    pub fn get(&self, group: &String, implementation: &String, size: &String) -> (r: Option<Double>)
        ensures
            r == found(self.records@, group@, implementation@, size@),
    {
        let mut n: usize = self.records.len();
        assert(self.records@.take(n as int) =~= self.records@);
        while n > 0
            invariant
                n <= self.records.len(),
                found(self.records@, group@, implementation@, size@) == found(
                    self.records@.take(n as int),
                    group@,
                    implementation@,
                    size@,
                ),
            decreases n,
        {
            let rec = &self.records[n - 1];
            assert(self.records@.take(n as int).drop_last() =~= self.records@.take(n - 1));
            if rec.group == *group && rec.implementation == *implementation && rec.size == *size {
                return Some(rec.mrays);
            }
            n = n - 1;
        }
        None
    }

    /// Whether anything was measured for a size of a scene.
    fn check_size(&self, ray: RayKind, scene: SceneKind, size: usize) -> (r: bool)
        ensures
            r == has_size(self.records@, ray, scene, size as int),
    {
        let group = make_group_name(ray, scene);
        let name = make_size_name(size);
        let rnpt = self.get(&group, &"rnpt".to_owned(), &name);
        let embree = self.get(&group, &"embree".to_owned(), &name);
        let embree1 = self.get(&group, &"embree1".to_owned(), &name);
        rnpt.is_some() || embree.is_some() || embree1.is_some()
    }

    /// Adds the line for a size.
    fn add_row<M: PreciseArith>(&self, math: &M, ray: RayKind, scene: SceneKind, size: usize, lines: &mut Vec<Line>)
        ensures
            forall|rules: PreciseRules| #[trigger]
                rules.describe(*math) ==> final(lines)@ == old(lines)@ + rules.row(
                    self.records@,
                    ray,
                    scene,
                    size as int,
                ),
    {
        let group = make_group_name(ray, scene);
        let name = make_size_name(size);
        let reference = if ray == RayKind::Coherent {
            self.get(&group, &"embree1".to_owned(), &name)
        } else {
            self.get(&group, &"embree".to_owned(), &name)
        };
        let rnpt = self.get(&group, &"rnpt".to_owned(), &name);
        let ghost before = lines@;
        if reference.is_none() && rnpt.is_none() {
            assert(before =~= before + Seq::<Line>::empty());
            return ;
        }
        let percent = match share(math, rnpt, reference) {
            Some(s) => Some(math.precise_product(s, Double { key: HUNDRED_KEY })),
            None => None,
        };
        let tone = ratio_color(math, rnpt, reference);
        let row = Row { ray, scene, size, labelled: size == 0, reference, rnpt, percent, tone };
        lines.push(Line::Result(row));
        assert(lines@ =~= before + seq![Line::Result(row)]);
    }

    /// Adds the lines for a scene.
    fn add_scene<M: PreciseArith>(&self, math: &M, ray: RayKind, scene: SceneKind, lines: &mut Vec<Line>)
        ensures
            forall|rules: PreciseRules| #[trigger]
                rules.describe(*math) ==> final(lines)@ == old(lines)@ + rules.scene_lines(self.records@, ray, scene),
    {
        let any = self.check_size(ray, scene, 0) || self.check_size(ray, scene, 1) || self.check_size(ray, scene, 2);
        let ghost start = lines@;
        proof {
            if any {
                assert(has_any(self.records@, ray, scene));
            }
        }
        if !any {
            assert(!has_any(self.records@, ray, scene)) by {
                assert(!has_size(self.records@, ray, scene, 0));
                assert(!has_size(self.records@, ray, scene, 1));
                assert(!has_size(self.records@, ray, scene, 2));
            }
            assert(start =~= start + Seq::<Line>::empty());
            return ;
        }
        lines.push(Line::Rule);
        let mut i: usize = 0;
        proof {
            assert forall|rules: PreciseRules| #[trigger] rules.describe(*math) implies lines@ == start + seq![
                Line::Rule,
            ] + rules.rows(self.records@, ray, scene, 0) by {
                assert(lines@ =~= start + seq![Line::Rule] + rules.rows(self.records@, ray, scene, 0));
            }
        }
        while i < SIZES
            invariant
                i <= SIZES,
                forall|rules: PreciseRules| #[trigger]
                    rules.describe(*math) ==> lines@ == start + seq![Line::Rule] + rules.rows(
                        self.records@,
                        ray,
                        scene,
                        i as int,
                    ),
            decreases SIZES - i,
        {
            let ghost before = lines@;
            self.add_row(math, ray, scene, i, lines);
            proof {
                assert forall|rules: PreciseRules| #[trigger] rules.describe(*math) implies lines@ == start + seq![
                    Line::Rule,
                ] + rules.rows(self.records@, ray, scene, i + 1) by {
                    assert(lines@ =~= start + seq![Line::Rule] + rules.rows(self.records@, ray, scene, i + 1));
                }
            }
            i = i + 1;
        }
        proof {
            assert forall|rules: PreciseRules| #[trigger] rules.describe(*math) implies lines@ == start
                + rules.scene_lines(self.records@, ray, scene) by {
                assert(lines@ =~= start + rules.scene_lines(self.records@, ray, scene));
            }
        }
    }

    /// Adds the lines for a kind of rays.
    fn add_rays<M: PreciseArith>(&self, math: &M, ray: RayKind, lines: &mut Vec<Line>)
        ensures
            forall|rules: PreciseRules| #[trigger]
                rules.describe(*math) ==> final(lines)@ == old(lines)@ + rules.ray_lines(self.records@, ray),
    {
        let ghost start = lines@;
        self.add_scene(math, ray, SceneKind::HeightField, lines);
        self.add_scene(math, ray, SceneKind::Cluster, lines);
        proof {
            assert forall|rules: PreciseRules| #[trigger] rules.describe(*math) implies lines@ == start
                + rules.ray_lines(self.records@, ray) by {
                assert(lines@ =~= start + rules.ray_lines(self.records@, ray));
            }
        }
    }
}

/// The table of all that was measured, below its head.
pub fn print_table<M: PreciseArith>(math: &M, data: &Data) -> (r: Vec<Line>)
    ensures
        forall|rules: PreciseRules| #[trigger] rules.describe(*math) ==> r@ == rules.table(data.records@),
{
    let mut lines: Vec<Line> = Vec::new();
    data.add_rays(math, RayKind::Coherent, &mut lines);
    lines.push(Line::DoubleRule);
    data.add_rays(math, RayKind::Incoherent, &mut lines);
    lines.push(Line::DoubleRule);
    data.add_rays(math, RayKind::Shadow, &mut lines);
    lines.push(Line::Rule);
    proof {
        assert forall|rules: PreciseRules| #[trigger] rules.describe(*math) implies lines@ == rules.table(
            data.records@,
        ) by {
            assert(lines@ =~= rules.table(data.records@));
        }
    }
    lines
}

/// What was inserted last is found, and other measurements are found as before.
pub proof fn law_latest_is_found(
    data: Seq<Record>,
    record: Record,
    group: Seq<char>,
    implementation: Seq<char>,
    size: Seq<char>,
)
    ensures
        found(data.push(record), record.group@, record.implementation@, record.size@) == Some(record.mrays),
        (group != record.group@ || implementation != record.implementation@ || size != record.size@) ==> found(
            data.push(record),
            group,
            implementation,
            size,
        ) == found(data, group, implementation, size),
{
    assert(data.push(record).drop_last() =~= data);
}

/// Without measurements the table holds rules only.
pub proof fn law_empty_table_has_no_results(rules: PreciseRules)
    ensures
        rules.table(Seq::empty()) == seq![Line::DoubleRule, Line::DoubleRule, Line::Rule],
{
    let none = Seq::<Record>::empty();
    assert(rules.table(none) =~= seq![Line::DoubleRule, Line::DoubleRule, Line::Rule]) by {
        assert(rules.ray_lines(none, RayKind::Coherent) =~= Seq::<Line>::empty());
        assert(rules.ray_lines(none, RayKind::Incoherent) =~= Seq::<Line>::empty());
        assert(rules.ray_lines(none, RayKind::Shadow) =~= Seq::<Line>::empty());
    }
}

/// A result is its share of the reference, wherever dividing by the reference can be
/// undone, and a result that equals the reference is all of it: a hundred percent,
/// and good.
pub proof fn law_share_makes_up_the_result(rules: PreciseRules, result: Double, reference: Double)
    requires
        Double::zero().lt(reference),
        rules.product(rules.quotient(result, reference), reference) == result,
        rules.quotient(reference, reference) == (Double { key: 0x3ff0_0000_0000_0000 }),
        rules.product(Double { key: 0x3ff0_0000_0000_0000 }, Double { key: HUNDRED_KEY }) == (Double {
            key: HUNDRED_KEY,
        }),
    ensures
        rules.share(Some(result), Some(reference)) is Some,
        rules.product(rules.share(Some(result), Some(reference)).unwrap(), reference) == result,
        rules.percent(Some(reference), Some(reference)) == Some(Double { key: HUNDRED_KEY }),
        rules.tone(Some(reference), Some(reference)) is Green,
{
}

/// More rays in a second never look worse, where quotients keep their order.
pub proof fn law_better_results_look_no_worse(rules: PreciseRules, less: Double, more: Double, reference: Double)
    requires
        rules.quotient(less, reference).le(rules.quotient(more, reference)),
    ensures
        rules.tone(Some(less), Some(reference)) is Green ==> rules.tone(Some(more), Some(reference)) is Green,
        rules.tone(Some(more), Some(reference)) is Red ==> rules.tone(Some(less), Some(reference)) is Red,
        rules.tone(Some(less), Some(reference)) is Plain <==> rules.tone(Some(more), Some(reference)) is Plain,
{
}

/// A result is compared only where there is something to compare it with.
pub proof fn law_only_pairs_are_compared(rules: PreciseRules, result: Option<Double>, reference: Option<Double>)
    ensures
        result is None || reference is None ==> rules.tone(result, reference) is Plain,
        result is None || reference is None ==> rules.percent(result, reference) is None,
        reference == Some(Double::zero()) ==> rules.tone(result, reference) is Plain,
        reference == Some(Double::zero()) ==> rules.percent(result, reference) is None,
        rules.percent(result, reference) is None <==> rules.tone(result, reference) is Plain,
{
}

/// The millions of rays in a second, for the seconds of a measurement, make up the
/// rays of the measurement, wherever dividing can be undone.
pub proof fn law_rays_per_second_make_up_the_rays(rules: PreciseRules, ns: Double)
    requires
        ({
            let rays = Double { key: RAYS_KEY };
            let million = Double { key: MILLION_KEY };
            let time = rules.quotient(ns, Double { key: BILLION_KEY });
            let rate = rules.quotient(rays, time);
            &&& rules.product(rate, time) == rays
            &&& rules.product(rules.quotient(rate, million), million) == rate
        }),
    ensures
        rules.product(
            rules.product(rules.mrays(ns), Double { key: MILLION_KEY }),
            rules.quotient(ns, Double { key: BILLION_KEY }),
        ) == (Double { key: RAYS_KEY }),
{
}

/// What is found was measured for just that group, implementation and size.
pub proof fn law_found_was_measured(data: Seq<Record>, group: Seq<char>, implementation: Seq<char>, size: Seq<char>) -> (
    at: int)
    ensures
        found(data, group, implementation, size) matches Some(v) ==> {
            &&& 0 <= at < data.len()
            &&& data[at].group@ == group
            &&& data[at].implementation@ == implementation
            &&& data[at].size@ == size
            &&& data[at].mrays == v
        },
        found(data, group, implementation, size) is None ==> forall|i: int|
            0 <= i < data.len() ==> !(#[trigger] data[i].group@ == group && data[i].implementation@ == implementation
                && data[i].size@ == size),
    decreases data.len(),
{
    if data.len() == 0 {
        0
    } else {
        let before = law_found_was_measured(data.drop_last(), group, implementation, size);
        let last = data.last();
        if last.group@ == group && last.implementation@ == implementation && last.size@ == size {
            data.len() - 1
        } else {
            assert forall|i: int| 0 <= i < data.len() && found(data, group, implementation, size) is None implies !(
            #[trigger] data[i].group@ == group && data[i].implementation@ == implementation && data[i].size@ == size) by {
                if i < data.len() - 1 {
                    assert(data.drop_last()[i] == data[i]);
                }
            }
            before
        }
    }
}

/// A line shows a measured result as the result and a measured reference as the
/// reference, and compares the one with the other.
pub proof fn law_line_shows_what_was_measured(
    rules: PreciseRules,
    data: Seq<Record>,
    record: Record,
    ray: RayKind,
    scene: SceneKind,
    size: int,
)
    requires
        0 <= size < SIZES,
        record.group@ == group_name(ray, scene),
        record.size@ == size_name(size),
        record.implementation@ == "rnpt"@ || record.implementation@ == "embree1"@ || record.implementation@ == "embree"@,
    ensures
        record.implementation@ == "rnpt"@ ==> {
            &&& rules.row(data.push(record), ray, scene, size).len() == 1
            &&& rules.row(data.push(record), ray, scene, size)[0] matches Line::Result(r)
            &&& r.rnpt == Some(record.mrays)
            &&& r.ray == ray && r.scene == scene && r.size == size
            &&& r.reference is None ==> r.tone is Plain
        },
        record.implementation@ == (if ray is Coherent {
            "embree1"@
        } else {
            "embree"@
        }) ==> {
            &&& rules.row(data.push(record), ray, scene, size).len() == 1
            &&& rules.row(data.push(record), ray, scene, size)[0] matches Line::Result(r)
            &&& r.reference == Some(record.mrays)
            &&& r.rnpt is None ==> r.tone is Plain
        },
{
    reveal_strlit("rnpt");
    reveal_strlit("embree");
    reveal_strlit("embree1");
    law_latest_is_found(data, record, group_name(ray, scene), "rnpt"@, size_name(size));
    law_latest_is_found(data, record, group_name(ray, scene), reference_name(ray), size_name(size));
}

} // verus!
