//! Outside types that the library's values carry through without reading them.
use vstd::prelude::*;

verus! {

/// A three-component vector of `glam`.
#[verifier::external_type_specification]
#[verifier::external_body]
pub struct ExVec3(glam::Vec3);

/// A four-component vector of `glam`.
#[verifier::external_type_specification]
#[verifier::external_body]
pub struct ExVec4(glam::Vec4);

/// A two-component vector of `glam`.
#[verifier::external_type_specification]
#[verifier::external_body]
pub struct ExVec2(glam::Vec2);

/// An unsigned two-component vector of `glam`.
#[verifier::external_type_specification]
#[verifier::external_body]
pub struct ExUVec2(glam::UVec2);

/// A rotation quaternion of `glam`.
#[verifier::external_type_specification]
#[verifier::external_body]
pub struct ExQuat(glam::Quat);

/// A point in time of `std::time`.
#[verifier::external_type_specification]
#[verifier::external_body]
pub struct ExInstant(std::time::Instant);

/// A handle to an entity of a `hecs` world.
#[verifier::external_type_specification]
#[verifier::external_body]
pub struct ExEntity(hecs::Entity);

/// Relies on glam's derived `Clone` for `Vec3`, a `Copy` type: the same value.
pub assume_specification[ <glam::Vec3 as Clone>::clone ](v: &glam::Vec3) -> (r: glam::Vec3)
    ensures
        r == *v,
;

/// Relies on glam's derived `Clone` for `Vec4`, a `Copy` type: the same value.
pub assume_specification[ <glam::Vec4 as Clone>::clone ](v: &glam::Vec4) -> (r: glam::Vec4)
    ensures
        r == *v,
;

/// Relies on glam's derived `Clone` for `UVec2`, a `Copy` type: the same value.
pub assume_specification[ <glam::UVec2 as Clone>::clone ](v: &glam::UVec2) -> (r: glam::UVec2)
    ensures
        r == *v,
;

/// The error type of `anyhow`, which a failed decode carries.
#[verifier::external_type_specification]
#[verifier::external_body]
pub struct ExAnyhowError(anyhow::Error);

/// The receiving half of a `std::sync::mpsc` channel.
#[verifier::external_type_specification]
#[verifier::external_body]
#[verifier::reject_recursive_types(T)]
pub struct ExReceiver<T>(std::sync::mpsc::Receiver<T>);

/// The sending half of a bounded `std::sync::mpsc` channel.
#[verifier::external_type_specification]
#[verifier::external_body]
#[verifier::reject_recursive_types(T)]
pub struct ExSyncSender<T>(std::sync::mpsc::SyncSender<T>);

/// Relies on `std::sync::mpsc::sync_channel`: a new channel whose two halves
/// are connected to each other. Nothing about the halves is stated.
pub assume_specification<T>[ std::sync::mpsc::sync_channel::<T> ](bound: usize) -> (
    std::sync::mpsc::SyncSender<T>,
    std::sync::mpsc::Receiver<T>,
);

/// A generational arena of `thunderdome`.
#[verifier::external_type_specification]
#[verifier::external_body]
#[verifier::reject_recursive_types(T)]
pub struct ExArena<T>(thunderdome::Arena<T>);

} // verus!
