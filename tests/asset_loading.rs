use asset_pipeline::components::{GLTFAsset, GLTFModel, Material, Primitive, Texture, Vertex};
use asset_pipeline::job_table::{AssetLoadState, AssetResult, ChannelRead};
use asset_pipeline::loader::{
    AssetCommand, AssetLoadToken, AssetLoader, AssetRequest, InFlightRequest, LoadRequest,
    TickOutput,
};
use std::sync::Arc;

fn texture() -> Texture {
    Texture { dimensions: glam::UVec2::new(1, 1), data: vec![255, 255, 255, 255] }
}

fn model(vertex_count: usize) -> GLTFModel {
    let vertex = Vertex { position: glam::Vec4::ONE, normal: glam::Vec4::ONE, uv: glam::Vec2::ZERO };
    GLTFModel {
        primitives: Arc::new(vec![Primitive {
            vertices: vec![vertex; vertex_count],
            indices: vec![0, 1, 2],
            material: Material {
                base_colour_texture: Some(texture()),
                base_colour_factor: glam::Vec4::ONE,
                normal_texture: Some(texture()),
                metallic_roughness_ao_texture: None,
                emissive_texture: None,
            },
        }]),
    }
}

fn scan(world: &hecs::World) -> (Vec<AssetRequest>, Vec<InFlightRequest>) {
    let pending = world
        .query::<&GLTFAsset>()
        .without::<hecs::Or<&GLTFModel, &AssetLoadToken>>()
        .iter()
        .map(|(entity, asset)| AssetRequest { entity, asset: asset.clone() })
        .collect();
    let in_flight = world
        .query::<(&AssetLoadToken, &GLTFAsset)>()
        .iter()
        .map(|(entity, (token, asset))| InFlightRequest { entity, token: *token, asset: asset.clone() })
        .collect();
    (pending, in_flight)
}

fn apply(world: &mut hecs::World, commands: Vec<AssetCommand>) {
    for command in commands {
        match command {
            AssetCommand::AttachModel(e, m) => world.insert_one(e, m).unwrap(),
            AssetCommand::AttachToken(e, t) => world.insert_one(e, t).unwrap(),
            AssetCommand::Finish(e, m) => {
                world.remove_one::<AssetLoadToken>(e).unwrap();
                world.insert_one(e, m).unwrap();
            }
            AssetCommand::Abandon(e) => {
                world.remove::<(AssetLoadToken, GLTFAsset)>(e).unwrap();
            }
        }
    }
}

fn tick(loader: &mut AssetLoader, world: &mut hecs::World) -> Vec<LoadRequest> {
    let (pending, in_flight) = scan(world);
    let TickOutput { commands, requests } = loader.load_assets(&pending, &in_flight);
    apply(world, commands);
    requests
}

fn serve(requests: Vec<LoadRequest>, decode: impl Fn(&str) -> AssetResult) {
    for request in requests {
        request.sender.send(decode(&request.name)).unwrap();
    }
}

fn no_entity_has_token_and_model(world: &hecs::World) -> bool {
    world.query::<(&AssetLoadToken, &GLTFModel)>().iter().count() == 0
}

#[test]
fn loading_assets() {
    let mut asset_loader = AssetLoader::new();
    let mut world = hecs::World::new();
    let entities_to_spawn = 16;
    for i in 0..entities_to_spawn {
        world.spawn((i, GLTFAsset::new("droid.glb")));
    }

    let mut ticks = 0;
    loop {
        let requests = tick(&mut asset_loader, &mut world);
        serve(requests, |_| Ok(model(40455)));
        ticks += 1;
        assert!(ticks < 10);

        if world
            .query_mut::<()>()
            .with::<(&GLTFAsset, &GLTFModel)>()
            .without::<&AssetLoadToken>()
            .into_iter()
            .count()
            == 16
        {
            break;
        }
    }

    let (_, model) = world
        .query_mut::<&GLTFModel>()
        .without::<&AssetLoadToken>()
        .into_iter()
        .next()
        .unwrap();

    let primitive = &model.primitives[0];
    assert_eq!(primitive.vertices.len(), 40455);

    let material = &primitive.material;
    assert!(material.base_colour_texture.is_some());
    assert!(material.normal_texture.is_some());
}

#[test]
fn first_tick_starts_one_job_per_entity_and_attaches_tokens() {
    let mut loader = AssetLoader::new();
    let mut world = hecs::World::new();
    for _ in 0..3 {
        world.spawn((GLTFAsset::new("droid.glb"),));
    }
    let requests = tick(&mut loader, &mut world);
    assert_eq!(requests.len(), 3);
    assert!(requests.iter().all(|r| r.name == "droid.glb"));
    assert_eq!(loader.job_count(), 3);
    assert_eq!(world.query::<&AssetLoadToken>().iter().count(), 3);
    assert_eq!(world.query::<&GLTFModel>().iter().count(), 0);
}

#[test]
fn cache_hit_attaches_without_new_jobs() {
    let mut loader = AssetLoader::new();
    let mut world = hecs::World::new();
    world.spawn((GLTFAsset::new("X"),));
    let requests = tick(&mut loader, &mut world);
    serve(requests, |_| Ok(model(3)));
    assert!(tick(&mut loader, &mut world).is_empty());
    assert_eq!(loader.job_count(), 0);
    assert!(loader.cached_model(&"X".to_string()).is_some());

    for _ in 0..5 {
        world.spawn((GLTFAsset::new("X"),));
    }
    let requests = tick(&mut loader, &mut world);
    assert!(requests.is_empty());
    assert_eq!(loader.job_count(), 0);
    assert_eq!(world.query::<(&GLTFAsset, &GLTFModel)>().iter().count(), 6);
    assert_eq!(world.query::<&AssetLoadToken>().iter().count(), 0);
}

#[test]
fn cache_hit_commands_carry_the_cached_model() {
    let mut loader = AssetLoader::new();
    let mut world = hecs::World::new();
    world.spawn((GLTFAsset::new("X"),));
    let requests = tick(&mut loader, &mut world);
    serve(requests, |_| Ok(model(7)));
    tick(&mut loader, &mut world);

    let e = world.spawn((GLTFAsset::new("X"),));
    let (pending, in_flight) = scan(&world);
    let out = loader.load_assets(&pending, &in_flight);
    assert!(out.requests.is_empty());
    assert_eq!(out.commands.len(), 1);
    match &out.commands[0] {
        AssetCommand::AttachModel(entity, m) => {
            assert_eq!(*entity, e);
            assert_eq!(m.primitives[0].vertices.len(), 7);
        }
        _ => panic!("expected the cached model"),
    }
}

#[test]
fn single_resolution_holds_after_every_tick() {
    let mut loader = AssetLoader::new();
    let mut world = hecs::World::new();
    for i in 0..4 {
        let name = if i % 2 == 0 { "a.glb" } else { "b.glb" };
        world.spawn((GLTFAsset::new(name),));
    }
    let mut held: Vec<LoadRequest> = Vec::new();
    for round in 0..6 {
        let requests = tick(&mut loader, &mut world);
        assert!(no_entity_has_token_and_model(&world));
        assert_eq!(
            world.query::<&AssetLoadToken>().without::<&GLTFAsset>().iter().count(),
            0
        );
        held.extend(requests);
        if round >= 2 {
            serve(std::mem::take(&mut held), |_| Ok(model(1)));
        }
    }
    assert_eq!(world.query::<&GLTFModel>().iter().count(), 4);
}

#[test]
fn failed_decode_is_isolated() {
    let mut loader = AssetLoader::new();
    let mut world = hecs::World::new();
    let good = world.spawn((GLTFAsset::new("good.glb"),));
    let bad = world.spawn((GLTFAsset::new("bad.glb"),));
    let requests = tick(&mut loader, &mut world);
    serve(requests, |name| {
        if name == "good.glb" {
            Ok(model(5))
        } else {
            Err(anyhow::Error::msg("No nodes found in glTF"))
        }
    });
    assert!(tick(&mut loader, &mut world).is_empty());

    assert!(world.get::<&GLTFModel>(good).is_ok());
    assert!(world.get::<&AssetLoadToken>(good).is_err());
    assert!(world.get::<&AssetLoadToken>(bad).is_err());
    assert!(world.get::<&GLTFAsset>(bad).is_err());
    assert!(world.get::<&GLTFModel>(bad).is_err());
    assert_eq!(loader.job_count(), 0);
    assert!(loader.cached_model(&"bad.glb".to_string()).is_none());

    // The failed entity is not retried.
    assert!(tick(&mut loader, &mut world).is_empty());
}

#[test]
fn pending_job_stays_in_flight() {
    let mut loader = AssetLoader::new();
    let mut world = hecs::World::new();
    let e = world.spawn((GLTFAsset::new("slow.glb"),));
    let requests = tick(&mut loader, &mut world);
    for _ in 0..3 {
        assert!(tick(&mut loader, &mut world).is_empty());
        assert!(world.get::<&AssetLoadToken>(e).is_ok());
        assert!(world.get::<&GLTFModel>(e).is_err());
    }
    serve(requests, |_| Ok(model(2)));
    tick(&mut loader, &mut world);
    assert!(world.get::<&GLTFModel>(e).is_ok());
    assert!(world.get::<&AssetLoadToken>(e).is_err());
}

#[test]
fn collected_token_reads_as_failed() {
    let mut loader = AssetLoader::new();
    let mut world = hecs::World::new();
    let e = world.spawn((GLTFAsset::new("once.glb"),));
    tick(&mut loader, &mut world)
        .into_iter()
        .for_each(|r| r.sender.send(Ok(model(1))).unwrap());
    let token = *world.get::<&AssetLoadToken>(e).unwrap();
    tick(&mut loader, &mut world);
    assert!(matches!(loader.check(&token), AssetLoadState::Failed(_)));
}

#[test]
fn dropped_sender_reads_as_failed() {
    let mut loader = AssetLoader::new();
    let mut world = hecs::World::new();
    let e = world.spawn((GLTFAsset::new("lost.glb"),));
    let requests = tick(&mut loader, &mut world);
    let token = *world.get::<&AssetLoadToken>(e).unwrap();
    assert!(matches!(loader.check(&token), AssetLoadState::Loading));
    drop(requests);
    assert!(matches!(loader.check(&token), AssetLoadState::Failed(_)));
    tick(&mut loader, &mut world);
    assert!(world.get::<&GLTFAsset>(e).is_err());
    assert!(world.get::<&AssetLoadToken>(e).is_err());
}

#[test]
fn same_uncached_name_twice_in_one_tick_starts_two_jobs() {
    let mut loader = AssetLoader::new();
    let mut world = hecs::World::new();
    world.spawn((GLTFAsset::new("twin.glb"),));
    world.spawn((GLTFAsset::new("twin.glb"),));
    let requests = tick(&mut loader, &mut world);
    assert_eq!(requests.len(), 2);
    serve(requests, |_| Ok(model(4)));
    tick(&mut loader, &mut world);
    assert_eq!(world.query::<&GLTFModel>().iter().count(), 2);
    assert_eq!(loader.job_count(), 0);
}

#[test]
fn received_values_map_to_states() {
    assert!(matches!(AssetLoadState::from_received(ChannelRead::Empty), AssetLoadState::Loading));
    assert!(matches!(
        AssetLoadState::from_received(ChannelRead::Disconnected),
        AssetLoadState::Failed(_)
    ));
    match AssetLoadState::from_received(ChannelRead::Value(Err(anyhow::Error::msg("Node has no mesh")))) {
        AssetLoadState::Failed(reason) => assert!(reason.contains("Node has no mesh")),
        _ => panic!("expected a failure"),
    }
    match AssetLoadState::from_received(ChannelRead::Value(Ok(model(9)))) {
        AssetLoadState::Loaded(m) => assert_eq!(m.primitives[0].vertices.len(), 9),
        _ => panic!("expected a model"),
    }
}
