//! Components that entities of the game world carry, and the decoded model
//! data that the asset pipeline attaches to them.
use std::collections::HashSet;
use std::sync::Arc;
use vstd::prelude::*;

verus! {

/// Asks for the named asset to be loaded and attached to this entity.
#[derive(Clone, Debug)]
pub struct GLTFAsset {
    pub name: String,
}

impl GLTFAsset {
    pub fn new(name: &str) -> (r: Self)
        ensures
            r.name@ == name@,
    {
        GLTFAsset { name: String::from_str(name) }
    }
}

/// A human-readable label for an entity.
#[derive(Clone, Debug, Default)]
pub struct Info {
    pub name: String,
}

impl Info {
    pub fn new(name: &str) -> (r: Self)
        ensures
            r.name@ == name@,
    {
        Info { name: String::from_str(name) }
    }
}

/// Tag: the player has selected this entity.
#[derive(Clone, Debug, Default)]
pub struct Selected;

/// Linear velocity of an entity.
#[derive(Clone, Debug)]
pub struct Velocity {
    pub linear: glam::Vec3,
}

/// Position, scale and rotation of an entity.
#[derive(Clone, Copy, Debug)]
pub struct Transform {
    pub position: glam::Vec3,
    pub scale: glam::Vec3,
    pub rotation: glam::Quat,
}

/// Relies on glam's `Vec3::ONE`, the vector whose components are all one: the
/// neutral scale.
#[verifier::external_body]
fn unit_scale() -> glam::Vec3 {
    glam::Vec3::ONE
}

/// Relies on glam's `Quat::IDENTITY`: the rotation that turns nothing.
#[verifier::external_body]
fn no_rotation() -> glam::Quat {
    glam::Quat::IDENTITY
}

impl Transform {
    pub fn new(position: glam::Vec3, rotation: glam::Quat, scale: glam::Vec3) -> (r: Self)
        ensures
            r.position == position,
            r.rotation == rotation,
            r.scale == scale,
    {
        Transform { position, scale, rotation }
    }

    /// A transform at `position` with unit scale and no rotation.
    pub fn from_position(position: glam::Vec3) -> (r: Self)
        ensures
            r.position == position,
    {
        Transform { position, scale: unit_scale(), rotation: no_rotation() }
    }

    /// A transform at `position`, turned by `rotation`, with unit scale.
    pub fn from_rotation_position(rotation: glam::Quat, position: glam::Vec3) -> (r: Self)
        ensures
            r.position == position,
            r.rotation == rotation,
    {
        Transform { position, scale: unit_scale(), rotation }
    }
}

/// Attaches an entity to a parent entity at a fixed offset.
pub struct Parent {
    pub entity: hecs::Entity,
    pub offset: Transform,
}

/// One vertex of a decoded mesh.
#[derive(Clone, Copy, Debug)]
pub struct Vertex {
    pub position: glam::Vec4,
    pub normal: glam::Vec4,
    pub uv: glam::Vec2,
}

/// An image decoded to 8-bit RGBA.
#[derive(Clone, Debug)]
pub struct Texture {
    /// Width and height in pixels.
    pub dimensions: glam::UVec2,
    /// Pixel data, four bytes per pixel.
    pub data: Vec<u8>,
}

/// Surface description of a primitive: up to four textures and a base colour.
#[derive(Clone, Debug)]
pub struct Material {
    pub base_colour_texture: Option<Texture>,
    pub base_colour_factor: glam::Vec4,
    pub normal_texture: Option<Texture>,
    pub metallic_roughness_ao_texture: Option<Texture>,
    pub emissive_texture: Option<Texture>,
}

/// One mesh of a model: vertices, triangle indices and a material.
#[derive(Clone, Debug)]
pub struct Primitive {
    pub vertices: Vec<Vertex>,
    pub indices: Vec<u32>,
    pub material: Material,
}

/// A decoded asset. Its primitives are shared, read-only, by every entity
/// that shows the same asset.
#[derive(Debug)]
pub struct GLTFModel {
    pub primitives: Arc<Vec<Primitive>>,
}

/// Relies on `Arc::clone`: a second pointer to the same allocation, so the
/// same value.
#[verifier::external_body]
fn share_primitives(p: &Arc<Vec<Primitive>>) -> (r: Arc<Vec<Primitive>>)
    ensures
        r == *p,
{
    Arc::clone(p)
}

impl GLTFModel {
    /// Another handle to the same model; no primitive is copied.
    pub fn share(&self) -> (r: GLTFModel)
        ensures
            r == *self,
    {
        GLTFModel { primitives: share_primitives(&self.primitives) }
    }
}

impl Clone for GLTFModel {
    fn clone(&self) -> Self {
        self.share()
    }
}

/// Replaces the base colour of every primitive an entity draws.
#[derive(Clone, Debug)]
pub struct MaterialOverrides {
    pub base_colour_factor: glam::Vec4,
}

/// The goods of the game's economy.
#[derive(Clone, Copy, Debug, PartialEq, Eq, Structural)]
pub enum Resource {
    Wood,
    Coal,
    Uranium,
    Boots,
    Fish,
    Bread,
    HorseMeat,
    Crabs,
    Amethyst,
    GolfBalls,
}

/// An amount of one resource wanted every day.
#[derive(Clone, Debug)]
pub struct Quota {
    pub resource: Resource,
    pub amount_per_day: usize,
}

/// What a business asks for.
#[derive(Clone, Debug)]
pub struct Contract {
    pub quotas: Vec<Quota>,
}

/// A business on the map.
#[derive(Clone, Debug)]
pub struct Business {
    pub name: String,
    pub contract: Contract,
}

/// Relies on `Instant::now`: the current time, which no contract can name.
#[verifier::external_body]
fn now() -> std::time::Instant {
    std::time::Instant::now()
}

/// Whom an entity fights, and when it last struck.
#[derive(Debug)]
pub struct CombatState {
    pub target: hecs::Entity,
    pub last_attack_time: std::time::Instant,
}

impl CombatState {
    /// A fight against `target` that starts now.
    pub fn new(target: hecs::Entity) -> (r: Self)
        ensures
            r.target == target,
    {
        CombatState { target, last_attack_time: now() }
    }
}

/// When a worker's needs were last brought up to date.
#[derive(Debug)]
pub struct HumanNeedsState {
    pub last_updated_at: std::time::Instant,
}

impl HumanNeedsState {
    /// Needs brought up to date now.
    pub fn starting_now() -> Self {
        HumanNeedsState { last_updated_at: now() }
    }
}

/// A building that workers gather at.
#[derive(Debug, Default)]
pub struct Beacon {
    pub workers: HashSet<hecs::Entity>,
}

} // verus!
