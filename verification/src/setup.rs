//! From a scene to what a path tracer is set up with.
use std::sync::Arc;
use vstd::prelude::*;
use crate::aabb::AABB;
use crate::accel::builder::is_built;
use crate::accel::bvh::{InternalRay, RayRules};
use crate::accel::exhaustive::law_nothing_to_hit;
use crate::accel::geometry::{is_buildable, triangles_of, Geometry, MAX_TRIANGLES};
use crate::bvh::{box_around_points, is_mesh_of, Bvh};
use crate::emitters::MeshEmitter;
use crate::flatten::{flattened, has_vertices, is_flattenable, BvhBuilder, SceneMath, SceneRules};
use crate::gui::GuiState;
use crate::import::default_camera;
use crate::light::{build_lights, copy_lights, EnvLight, Light};
use crate::material::is_corner;
use crate::scene::{Camera, Scene};
use crate::texture::are_complete;
use crate::tracer::config::{are_samplable, is_shadeable, PathTracerConfig};

verus! {

/// A scene without anything, seen by the usual camera.
pub fn empty_scene() -> (r: Scene)
    ensures
        r.meshes@.len() == 0,
        r.materials@.len() == 0,
        r.textures@.len() == 0,
        r.lights@.len() == 0,
        r.nodes@.len() == 0,
        r.roots@.len() == 0,
        r.cameras@ == seq![default_camera()],
{
    let mut cameras: Vec<Camera> = Vec::new();
    cameras.push(Camera::default());
    assert(cameras@ =~= seq![default_camera()]);
    Scene {
        meshes: Vec::new(),
        materials: Vec::new(),
        textures: Vec::new(),
        lights: Vec::new(),
        nodes: Vec::new(),
        roots: Vec::new(),
        cameras,
    }
}

/// Append the environment light (if any) to the unified light list and report
/// its index.
pub fn with_env(lights: Vec<Light>, env: Option<Arc<EnvLight>>) -> (r: (Vec<Light>, Option<usize>))
    ensures
        match env {
            Some(e) => r.0@ == lights@.push(Light::Environment(e)) && r.1 == Some(lights.len()),
            None => r.0@ == lights@ && r.1 is None,
        },
{
    let mut all = lights;
    match env {
        Some(e) => {
            let idx: usize = all.len();
            all.push(Light::Environment(e));
            (all, Some(idx))
        },
        None => (all, None),
    }
}

/// The tree over a scene, its lights, and the number of its triangles.
pub struct Built {
    pub bvh: Bvh,
    pub lights: Vec<Light>,
    pub triangle_count: usize,
}

/// Build the tree and the unified light list (the scene's own lights, then one
/// per emissive mesh) for a scene. None if there are more triangles than a tree
/// can hold.
pub fn build_bvh_and_lights<M: SceneMath>(math: &M, scene: &Scene) -> (r: Option<Built>)
    requires
        is_flattenable(*scene),
    ensures
        r matches Some(b) ==> {
            &&& b.triangle_count == b.bvh.triangle_meta@.len()
            &&& is_shadeable(b.bvh, *scene)
            &&& scene.lights@.is_prefix_of(b.lights@)
            &&& forall|i: int| scene.lights@.len() <= i < b.lights@.len() ==> (#[trigger] b.lights@[i]) is Area
            &&& are_samplable(scene.lights@) ==> are_samplable(b.lights@)
            &&& (AABB { min: b.bvh.bounds_min, max: b.bvh.bounds_max }) == box_around_points(b.bvh.vertices@)
            &&& b.bvh.accel.geometries().len() == 1
            &&& is_mesh_of(b.bvh.accel.geometries()[0], b.bvh.vertices@, b.bvh.triangle_meta@)
            &&& is_buildable(b.bvh.accel.geometries())
            &&& b.bvh.accel.tree() is Some
            &&& is_built(b.bvh.accel.tree()->0, b.bvh.accel.geometries(), *math)
        },
        forall|rules: SceneRules| #[trigger]
            rules.describe(*math) ==> {
                let flat = flattened(rules, *scene);
                &&& r is Some <==> flat.meta.len() <= MAX_TRIANGLES
                &&& (r matches Some(b) ==> {
                    &&& b.bvh.triangle_meta@ == flat.meta
                    &&& b.bvh.vertices@ == flat.vertices
                    &&& b.bvh.normals@ == flat.normals
                    &&& b.bvh.uvs@ == flat.uvs
                    &&& b.bvh.colors@ == flat.colors
                    &&& b.bvh.tangents@ == flat.tangents
                    &&& b.lights@.len() == scene.lights@.len() + flat.emitters.len()
                    &&& forall|i: int|
                        #![trigger b.lights@[scene.lights@.len() + i]]
                        0 <= i < flat.emitters.len() ==> (b.lights@[scene.lights@.len() + i] matches Light::Area(m)
                            && m@ == flat.emitters[i])
                })
            },
{
    let builder = BvhBuilder::new(math, scene);
    let triangle_count: usize = builder.triangle_count();
    if triangle_count > MAX_TRIANGLES as usize {
        return None;
    }
    let ghost flat = builder@;
    let (bvh, emitters) = builder.build(math);
    proof {
        assert forall|i: int| 0 <= i < bvh.triangle_meta@.len() implies (#[trigger] bvh.triangle_meta@[i]).material
            < scene.materials@.len() && is_corner(bvh, bvh.triangle_meta@[i].v0) && is_corner(
            bvh,
            bvh.triangle_meta@[i].v1,
        ) && is_corner(bvh, bvh.triangle_meta@[i].v2) by {
            assert(has_vertices(flat.meta[i], flat.corners.len()));
            assert(flat.meta[i].material < scene.materials@.len());
        }
    }
    let ghost views = emitters@.map_values(|e: MeshEmitter| e@);
    let punctual = copy_lights(&scene.lights);
    let lights = build_lights(punctual, emitters);
    proof {
        assert forall|i: int| 0 <= i < emitters@.len() implies #[trigger] lights@[punctual@.len() + i] == Light::Area(
            Arc::new(emitters@[i]),
        ) by {}
        assert forall|i: int| punctual@.len() <= i < lights@.len() implies (#[trigger] lights@[i]) is Area by {
            assert(lights@[punctual@.len() + (i - punctual@.len())] == Light::Area(Arc::new(emitters@[i - punctual@.len()])));
        }
        if are_samplable(punctual@) {
            assert forall|i: int| 0 <= i < lights@.len() implies (#[trigger] lights@[i]).can_be_sampled() by {
                if i < punctual@.len() {
                    assert(punctual@[i].can_be_sampled());
                }
            }
        }
        assert forall|i: int| 0 <= i < emitters@.len() implies #[trigger] views[i] == emitters@[i]@ by {}
    }
    Some(Built { bvh, lights, triangle_count })
}

/// What a path tracer is set up with for the settings of a window: the scene, its
/// tree, its lights and the environment (if any), and no network yet.
pub fn configure(
    state: &GuiState,
    scene: Arc<Scene>,
    bvh: Arc<Bvh>,
    lights: Vec<Light>,
    env: Option<Arc<EnvLight>>,
) -> (r: PathTracerConfig)
    ensures
        r.width == state.width,
        r.height == state.height,
        r.camera == state.camera,
        r.strategy == state.strategy,
        r.scene == scene,
        r.bvh == bvh,
        r.nirc_network is None,
        match env {
            Some(e) => r.lights@ == lights@.push(Light::Environment(e)) && r.env == Some(lights.len()),
            None => r.lights@ == lights@ && r.env is None,
        },
        is_shadeable(*bvh, *scene) && are_complete(scene.textures@) && are_samplable(lights@) && lights.len()
            < u32::MAX && (env matches Some(e) ==> e@.has_pixels()) ==> r.valid(),
{
    let ghost sky = env;
    let (all, index) = with_env(lights, env);
    proof {
        if are_samplable(lights@) && (sky matches Some(e) ==> e@.has_pixels()) {
            assert forall|i: int| 0 <= i < all@.len() implies (#[trigger] all@[i]).can_be_sampled() by {
                if i < lights@.len() {
                    assert(lights@[i].can_be_sampled());
                }
            }
        }
    }
    PathTracerConfig {
        width: state.width,
        height: state.height,
        camera: state.camera,
        scene,
        bvh,
        lights: Arc::new(all),
        env: index,
        strategy: state.strategy,
        nirc_network: None,
    }
}

/// Nothing is hit in a scene without roots.
pub proof fn law_empty_scene_is_never_hit<M: SceneMath>(
    math: M,
    rules: SceneRules,
    scene: Scene,
    bvh: Bvh,
    ray_rules: RayRules,
    ray: InternalRay,
)
    requires
        scene.roots@.len() == 0,
        bvh.triangle_meta@ == flattened(rules, scene).meta,
        bvh.accel.geometries().len() == 1,
        is_mesh_of(bvh.accel.geometries()[0], bvh.vertices@, bvh.triangle_meta@),
        bvh.accel.tree() is Some,
        is_built(bvh.accel.tree()->0, bvh.accel.geometries(), math),
    ensures
        bvh.accel.tree()->0.nearest(ray_rules, ray) is None,
        !bvh.accel.tree()->0.is_hit(ray_rules, ray),
{
    let geoms = bvh.accel.geometries();
    reveal_with_fuel(triangles_of, 2);
    assert(geoms.drop_last() =~= Seq::<Geometry>::empty());
    law_nothing_to_hit(bvh.accel.tree()->0, geoms, math, ray_rules, ray);
}

} // verus!
