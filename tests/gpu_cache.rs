use asset_pipeline::components::Transform;
use asset_pipeline::geometry::GeometryOffsets;
use asset_pipeline::gpu_cache::{
    import_material, Drawable, GpuAssetCache, GpuRequest, LoadedGLTFModel,
    TextureIds, UploadedModel, UploadedPrimitive, NO_TEXTURE_ID,
};

fn request(world: &mut hecs::World, name: &str) -> GpuRequest {
    GpuRequest { entity: world.spawn(()), name: name.to_string() }
}

fn upload(first_index: usize, textures: TextureIds) -> UploadedModel {
    UploadedModel {
        primitives: vec![UploadedPrimitive {
            geometry: GeometryOffsets::new(first_index, 3, first_index, 3),
            textures,
            base_colour_factor: glam::Vec4::ONE,
        }],
    }
}

fn no_textures() -> TextureIds {
    TextureIds { base_colour: None, normal: None, metallic_roughness_ao: None, emissive: None }
}

#[test]
fn each_distinct_name_is_uploaded_once() {
    let mut world = hecs::World::new();
    let mut cache = GpuAssetCache::new();
    let requests = vec![
        request(&mut world, "a.glb"),
        request(&mut world, "b.glb"),
        request(&mut world, "a.glb"),
    ];
    let needed = cache.uploads_needed(&requests);
    assert_eq!(needed, vec![0, 1]);
    let uploads = vec![upload(0, no_textures()), upload(3, no_textures())];
    let attached = cache.update_assets(&requests, &uploads);
    assert_eq!(cache.upload_count(), 2);
    assert_eq!(cache.len(), 2);
    assert_eq!(attached.len(), 3);
    assert_eq!(attached[0].model.primitives, attached[2].model.primitives);
    assert_ne!(attached[0].model.primitives, attached[1].model.primitives);

    // The same requests again: everything is cached, nothing is uploaded.
    assert!(cache.uploads_needed(&requests).is_empty());
    let again = cache.update_assets(&requests, &Vec::new());
    assert_eq!(cache.upload_count(), 2);
    assert_eq!(again[1].model.primitives, attached[1].model.primitives);
}

#[test]
fn handles_point_at_uploaded_geometry_and_materials() {
    let mut world = hecs::World::new();
    let mut cache = GpuAssetCache::new();
    let requests = vec![request(&mut world, "a.glb")];
    let textures = TextureIds { base_colour: Some(4), normal: Some(5), metallic_roughness_ao: None, emissive: None };
    let attached = cache.update_assets(&requests, &vec![upload(12, textures)]);
    let primitive = attached[0].model.primitives[0];
    let geometry = cache.geometry(primitive.geometry).unwrap();
    assert_eq!(geometry.index_offset, 12);
    assert_eq!(geometry.index_count, 3);
    let material = cache.material(primitive.material).unwrap();
    assert_eq!(material.base_colour_texture_id, 4);
    assert_eq!(material.normal_texture_id, 5);
    assert_eq!(material.metallic_roughness_ao_texture_id, NO_TEXTURE_ID);
    assert_eq!(material.emissive_texture_id, NO_TEXTURE_ID);
    assert!(cache.geometry(primitive.geometry + 1).is_none());
    assert!(cache.material(primitive.material + 1).is_none());
}

#[test]
fn unload_empties_and_update_repopulates() {
    let mut world = hecs::World::new();
    let mut cache = GpuAssetCache::new();
    let requests = vec![request(&mut world, "a.glb"), request(&mut world, "b.glb")];
    cache.update_assets(&requests, &vec![upload(0, no_textures()), upload(3, no_textures())]);
    assert_eq!(cache.len(), 2);

    cache.unload_assets();
    assert_eq!(cache.len(), 0);
    assert_eq!(cache.upload_count(), 0);
    assert!(cache.get(&"a.glb".to_string()).is_none());
    assert!(cache.geometry(0).is_none());

    assert_eq!(cache.uploads_needed(&requests), vec![0, 1]);
    let attached = cache.update_assets(&requests, &vec![upload(0, no_textures()), upload(3, no_textures())]);
    assert_eq!(cache.len(), 2);
    assert_eq!(cache.upload_count(), 2);
    let a = cache.get(&"a.glb".to_string()).unwrap();
    assert_eq!(a.primitives, attached[0].model.primitives);
    assert_eq!(cache.geometry(a.primitives[0].geometry).unwrap().index_offset, 0);
}

#[test]
fn absent_textures_become_the_no_texture_id() {
    let p = UploadedPrimitive {
        geometry: GeometryOffsets::new(0, 0, 0, 0),
        textures: TextureIds { base_colour: None, normal: Some(2), metallic_roughness_ao: Some(3), emissive: None },
        base_colour_factor: glam::Vec4::new(0.5, 0.5, 0.5, 1.0),
    };
    let m = import_material(&p);
    assert_eq!(m.base_colour_texture_id, NO_TEXTURE_ID);
    assert_eq!(m.normal_texture_id, 2);
    assert_eq!(m.metallic_roughness_ao_texture_id, 3);
    assert_eq!(m.emissive_texture_id, NO_TEXTURE_ID);
    assert_eq!(m.base_colour_factor, glam::Vec4::new(0.5, 0.5, 0.5, 1.0));
}

#[test]
fn draw_calls_follow_primitives() {
    let mut world = hecs::World::new();
    let mut cache = GpuAssetCache::new();
    let requests = vec![request(&mut world, "a.glb")];
    let two = UploadedModel {
        primitives: vec![
            UploadedPrimitive { geometry: GeometryOffsets::new(0, 3, 0, 3), textures: no_textures(), base_colour_factor: glam::Vec4::ONE },
            UploadedPrimitive { geometry: GeometryOffsets::new(3, 6, 3, 4), textures: no_textures(), base_colour_factor: glam::Vec4::ONE },
        ],
    };
    let attached = cache.update_assets(&requests, &vec![two]);
    let model = &attached[0].model;
    let drawables = vec![
        Drawable { transform: Transform::from_position(glam::Vec3::X), model: model.duplicate(), material_overrides: None },
        Drawable { transform: Transform::from_position(glam::Vec3::Y), model: LoadedGLTFModel { primitives: vec![] }, material_overrides: None },
        Drawable { transform: Transform::from_position(glam::Vec3::Z), model: model.duplicate(), material_overrides: None },
    ];
    let calls = cache.build_draw_calls(&drawables);
    assert_eq!(calls.len(), 4);
    assert_eq!(calls[0].geometry, model.primitives[0].geometry);
    assert_eq!(calls[1].geometry, model.primitives[1].geometry);
    assert_eq!(calls[2].transform.position, glam::Vec3::Z);
    assert_eq!(calls[3].material, model.primitives[1].material);
}

#[test]
fn empty_request_list_needs_nothing() {
    let mut cache = GpuAssetCache::new();
    assert!(cache.uploads_needed(&Vec::new()).is_empty());
    assert!(cache.update_assets(&Vec::new(), &Vec::new()).is_empty());
    assert_eq!(cache.upload_count(), 0);
}
