use lithos::optics::{OpticalSystemConfig, SemiAxes, SurfaceGeometry, spawn_optical_system};
use lithos::units::{Distance, Position3D};
use lithos::vector::{reflect, Vector3, UNIT};
use lithos::world::World;

fn meters(x: i128, y: i128, z: i128) -> Position3D {
    Position3D::new(Distance::from_meters(x), Distance::from_meters(y), Distance::from_meters(z))
}

#[test]
fn test_sphere_normal() {
    let surface = SurfaceGeometry::Spherical { radius: Distance::from_meters(1), center: Position3D::zero() };
    let normal = surface.normal_at(&meters(1, 0, 0)).unwrap();
    assert_eq!(normal.x, UNIT);
    assert_eq!(normal.y, 0);
}

#[test]
fn test_ray_sphere_hit() {
    let surface = SurfaceGeometry::Spherical { radius: Distance::from_meters(1), center: Position3D::zero() };
    let hit = surface.ray_intersection(&meters(-2, 0, 0), &Vector3 { x: UNIT, y: 0, z: 0 });
    assert!(hit.is_some());
    assert!(hit.map(|h| h.point).is_some());
}

#[test]
fn sphere_hit_distance_and_point() {
    let surface = SurfaceGeometry::Spherical { radius: Distance::from_meters(1), center: Position3D::zero() };
    let hit = surface.ray_intersection(&meters(-2, 0, 0), &Vector3 { x: UNIT, y: 0, z: 0 }).unwrap();
    assert_eq!(hit.distance, Distance::from_meters(1));
    assert_eq!(hit.point, meters(-1, 0, 0));
}

#[test]
fn ray_pointing_away_misses() {
    let surface = SurfaceGeometry::Spherical { radius: Distance::from_meters(1), center: Position3D::zero() };
    assert!(surface.ray_intersection(&meters(-2, 0, 0), &Vector3 { x: -UNIT, y: 0, z: 0 }).is_none());
    assert!(surface.ray_intersection(&meters(-2, 5, 0), &Vector3 { x: UNIT, y: 0, z: 0 }).is_none());
}

#[test]
fn plane_hit_and_parallel_miss() {
    let plane = SurfaceGeometry::Planar { normal: Vector3 { x: UNIT, y: 0, z: 0 } };
    let hit = plane.ray_intersection(&meters(-3, 0, 0), &Vector3 { x: UNIT, y: 0, z: 0 }).unwrap();
    assert_eq!(hit.distance, Distance::from_meters(3));
    assert_eq!(hit.point, Position3D::zero());
    assert!(plane.ray_intersection(&meters(-3, 0, 0), &Vector3 { x: 0, y: UNIT, z: 0 }).is_none());
    assert!(plane.ray_intersection(&meters(3, 0, 0), &Vector3 { x: UNIT, y: 0, z: 0 }).is_none());
}

#[test]
fn ellipsoid_uses_bounding_sphere_and_gradient_normal() {
    let g = SurfaceGeometry::Ellipsoid {
        semi_axes: SemiAxes { x: Distance::from_meters(2), y: Distance::from_meters(1), z: Distance::from_meters(1) },
        focus1: Position3D::zero(),
        focus2: meters(1, 0, 0),
    };
    let hit = g.ray_intersection(&meters(-5, 0, 0), &Vector3 { x: UNIT, y: 0, z: 0 }).unwrap();
    assert_eq!(hit.distance, Distance::from_meters(3));
    let n = g.normal_at(&meters(0, 1, 0)).unwrap();
    assert_eq!(n, Vector3 { x: 0, y: UNIT, z: 0 });
}

#[test]
fn test_reflection_vector() {
    let incident = Vector3 { x: 707_107, y: -707_107, z: 0 };
    let normal = Vector3 { x: 0, y: UNIT, z: 0 };
    let reflected = reflect(&incident, &normal);
    assert_eq!(reflected.y, 707_107);
    assert_eq!(reflected.x, 707_107);
}

#[test]
fn default_optics_spawn_three_mirrors() {
    let mut world = World::new();
    let config = OpticalSystemConfig::default();
    spawn_optical_system(&mut world, &config);
    assert_eq!(world.len(), 3);
    assert!(world.entities.iter().all(|e| e.mirror.is_some() && e.thermal.is_some()));
    assert_eq!(world.entities[0].thermal.unwrap().heat_capacity, 5_000_000_000);
    assert_eq!(world.entities[1].thermal.unwrap().heat_capacity, 2_000_000_000);
}

#[test]
fn sphere_normal_has_unit_length() {
    let surface = SurfaceGeometry::Spherical { radius: Distance::from_meters(1), center: Position3D::zero() };
    let n = surface.normal_at(&meters(1, 1, 0)).unwrap();
    assert_eq!(n, Vector3 { x: 707_107, y: 707_107, z: 0 });
}

#[test]
fn ray_from_inside_a_sphere_takes_the_far_root() {
    let surface = SurfaceGeometry::Spherical { radius: Distance::from_meters(1), center: Position3D::zero() };
    let hit = surface.ray_intersection(&Position3D::zero(), &Vector3 { x: UNIT, y: 0, z: 0 }).unwrap();
    assert_eq!(hit.distance, Distance::from_meters(1));
    assert_eq!(hit.point, meters(1, 0, 0));
}

#[test]
fn plane_with_short_normal_is_not_parallel_to_oblique_rays() {
    let plane = SurfaceGeometry::Planar { normal: Vector3 { x: 1, y: 0, z: 0 } };
    let hit = plane.ray_intersection(&meters(-3, 0, 0), &Vector3 { x: UNIT, y: UNIT / 2, z: 0 }).unwrap();
    assert_eq!(hit.point.x, Distance::zero());
    assert_eq!(hit.point.y, Distance::from_millimeters(1500));
    assert_eq!(plane.normal_at(&Position3D::zero()), Some(Vector3 { x: UNIT, y: 0, z: 0 }));
}

#[test]
fn sphere_normal_near_the_centre() {
    let surface = SurfaceGeometry::Spherical { radius: Distance::from_meters(1), center: Position3D::zero() };
    let p = Position3D::new(Distance::from_picometers(3), Distance::from_picometers(4), Distance::zero());
    assert_eq!(surface.normal_at(&p), Some(Vector3 { x: 600_000, y: 800_000, z: 0 }));
    assert_eq!(surface.normal_at(&Position3D::zero()), None);
}
