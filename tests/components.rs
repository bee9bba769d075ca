use asset_pipeline::asset_cache::AssetCache;
use asset_pipeline::builtin_meshes::{Geometry, GeometryOffsets as BuiltinOffsets, IndexBufferEntry};
use asset_pipeline::components::{GLTFAsset, GLTFModel, Info, Resource, Transform};
use asset_pipeline::game_state::{
    get_description, get_resource_colour, hex_to_rgb, reset_mouse_clicks, ClickState, MouseState,
};
use asset_pipeline::geometry::GeometryOffsets;
use std::sync::Arc;

#[test]
fn names_are_kept() {
    assert_eq!(GLTFAsset::new("droid.glb").name, "droid.glb");
    assert_eq!(Info::new("Bjorn").name, "Bjorn");
}

#[test]
fn transforms_keep_their_parts() {
    let t = Transform::new(glam::Vec3::new(1.0, 2.0, 3.0), glam::Quat::IDENTITY, glam::Vec3::splat(2.0));
    assert_eq!(t.position, glam::Vec3::new(1.0, 2.0, 3.0));
    assert_eq!(t.scale, glam::Vec3::splat(2.0));
    let p = Transform::from_position(glam::Vec3::new(0.0, 0.1, 0.0));
    assert_eq!(p.position, glam::Vec3::new(0.0, 0.1, 0.0));
    assert_eq!(p.scale, glam::Vec3::ONE);
    assert_eq!(p.rotation, glam::Quat::IDENTITY);
    let r = Transform::from_rotation_position(glam::Quat::from_rotation_y(1.0), glam::Vec3::X);
    assert_eq!(r.rotation, glam::Quat::from_rotation_y(1.0));
    assert_eq!(r.scale, glam::Vec3::ONE);
}

#[test]
fn geometry_offsets_keep_positions() {
    let g = GeometryOffsets::new(10, 20, 30, 40);
    assert_eq!((g.index_offset, g.index_count, g.vertex_offset, g.vertex_count), (10, 20, 30, 40));
    let e = IndexBufferEntry::new(6, 12, 4);
    assert_eq!((e.index_count, e.index_offset, e.vertex_offset), (6, 12, 4));
}

#[test]
fn builtin_offsets_pick_the_mesh() {
    let offsets = BuiltinOffsets {
        plane: IndexBufferEntry::new(6, 0, 0),
        cube: IndexBufferEntry::new(36, 6, 4),
        sphere: IndexBufferEntry::new(960, 42, 28),
    };
    assert_eq!(offsets.get(Geometry::Plane).index_count, 6);
    assert_eq!(offsets.get(Geometry::Cube).index_offset, 6);
    assert_eq!(offsets.get(Geometry::Sphere).vertex_offset, 28);
}

#[test]
fn asset_cache_is_write_once() {
    let empty = || GLTFModel { primitives: Arc::new(Vec::new()) };
    let mut cache = AssetCache::new();
    assert_eq!(cache.len(), 0);
    assert!(cache.insert("a".to_string(), empty()));
    assert!(!cache.insert("a".to_string(), empty()));
    assert!(cache.insert("b".to_string(), empty()));
    assert_eq!(cache.len(), 2);
    assert!(cache.contains(&"a".to_string()));
    assert!(!cache.contains(&"c".to_string()));
    assert!(cache.get(&"b".to_string()).is_some());
    assert!(cache.get(&"c".to_string()).is_none());
}

#[test]
fn model_share_points_at_the_same_primitives() {
    let m = GLTFModel { primitives: Arc::new(Vec::new()) };
    let s = m.share();
    assert!(Arc::ptr_eq(&m.primitives, &s.primitives));
}

#[test]
fn colour_codes_read_as_bytes() {
    assert_eq!(hex_to_rgb("#1EFC0A"), (0x1E, 0xFC, 0x0A));
    assert_eq!(hex_to_rgb("##ff5722"), (0xFF, 0x57, 0x22));
    assert_eq!(hex_to_rgb("000000"), (0, 0, 0));
    assert_eq!(get_resource_colour(Resource::Wood), (0x79, 0x55, 0x48));
    assert_eq!(get_resource_colour(Resource::Uranium), (0x1E, 0xFC, 0x0A));
    assert_eq!(get_resource_colour(Resource::GolfBalls), (255, 255, 255));
    assert_eq!(get_resource_colour(Resource::Coal), (0, 0, 0));
}

#[test]
fn buildings_have_descriptions() {
    assert_eq!(get_description("Mine"), "A place where raw iron can be mined. By mining.");
    assert_eq!(get_description("Factory"), "A place where pure iron can be made into PAPERCLIPS!");
    assert_eq!(get_description("Mines"), "Honestly I've got no idea");
    assert_eq!(get_description(""), "Honestly I've got no idea");
}

#[test]
fn released_buttons_settle() {
    let mut m = MouseState {
        position: None,
        left_click_state: ClickState::JustReleased,
        right_click_state: ClickState::Down,
        middle_click_state: ClickState::Released,
    };
    reset_mouse_clicks(&mut m);
    assert_eq!(m.left_click_state, ClickState::Released);
    assert_eq!(m.right_click_state, ClickState::Down);
    assert_eq!(m.middle_click_state, ClickState::Released);
}

#[test]
fn combat_starts_against_its_target() {
    let mut world = hecs::World::new();
    let target = world.spawn(());
    let state = asset_pipeline::components::CombatState::new(target);
    assert_eq!(state.target, target);
    assert!(state.last_attack_time.elapsed().as_secs() < 60);
    let needs = asset_pipeline::components::HumanNeedsState::starting_now();
    assert!(needs.last_updated_at.elapsed().as_secs() < 60);
}
