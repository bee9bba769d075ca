//! The renderer-side asset cache: each distinct asset is turned into GPU
//! geometry and materials once, then shared by every entity that shows it.
//!
//! The GPU work itself (appending vertex and index data to the shared
//! buffers, uploading textures) is done by the backend. This cache decides
//! which assets need it, records what the backend produced, and hands out the
//! handles.
use crate::asset_cache::{lemma_map_of_entries, map_of, names_distinct};
use crate::components::{MaterialOverrides, Transform};
use crate::geometry::GeometryOffsets;
use vstd::prelude::*;

verus! {

/// The texture id that stands for "no texture" in a material.
pub const NO_TEXTURE_ID: u32 = 0xFFFF_FFFF;

/// One primitive as the GPU holds it: handles into the geometry and material
/// tables.
#[derive(Clone, Copy, Debug, PartialEq, Eq, Structural)]
pub struct GPUPrimitive {
    pub geometry: usize,
    pub material: usize,
}

/// A model as the GPU holds it.
#[derive(Debug)]
pub struct LoadedGLTFModel {
    pub primitives: Vec<GPUPrimitive>,
}

impl LoadedGLTFModel {
    /// A copy with the same handles.
    pub fn duplicate(&self) -> (r: LoadedGLTFModel)
        ensures
            r.primitives@ == self.primitives@,
    {
        let mut primitives: Vec<GPUPrimitive> = Vec::new();
        let mut i: usize = 0;
        while i < self.primitives.len()
            invariant
                i <= self.primitives@.len(),
                primitives@ == self.primitives@.take(i as int),
            decreases self.primitives@.len() - i,
        {
            primitives.push(self.primitives[i]);
            proof {
                assert(self.primitives@.take(i + 1) =~= self.primitives@.take(i as int).push(
                    self.primitives@[i as int],
                ));
            }
            i = i + 1;
        }
        proof {
            assert(self.primitives@.take(self.primitives@.len() as int) =~= self.primitives@);
        }
        LoadedGLTFModel { primitives }
    }
}

/// A material as the shaders read it: four texture ids, `NO_TEXTURE_ID`
/// where a texture is absent, and the base colour.
#[derive(Clone, Copy, Debug)]
pub struct GPUMaterial {
    pub emissive_texture_id: u32,
    pub metallic_roughness_ao_texture_id: u32,
    pub normal_texture_id: u32,
    pub base_colour_texture_id: u32,
    pub base_colour_factor: glam::Vec4,
}

/// The ids that the backend gave the uploaded textures of one material;
/// `None` where the material has no such texture.
#[derive(Clone, Copy, Debug, PartialEq, Eq, Structural)]
pub struct TextureIds {
    pub base_colour: Option<u32>,
    pub normal: Option<u32>,
    pub metallic_roughness_ao: Option<u32>,
    pub emissive: Option<u32>,
}

/// What the backend produced for one primitive: where its data went in the
/// shared buffers, its textures, and its base colour.
#[derive(Clone, Copy, Debug)]
pub struct UploadedPrimitive {
    pub geometry: GeometryOffsets,
    pub textures: TextureIds,
    pub base_colour_factor: glam::Vec4,
}

/// What the backend produced for one model, primitive by primitive.
pub struct UploadedModel {
    pub primitives: Vec<UploadedPrimitive>,
}

/// An entity whose decoded model has no GPU counterpart yet, and the name of
/// its asset.
pub struct GpuRequest {
    pub entity: hecs::Entity,
    pub name: String,
}

/// What a draw needs: geometry, material, placement, optional colour.
pub struct DrawCall {
    pub geometry: usize,
    pub material: usize,
    pub transform: Transform,
    pub material_overrides: Option<MaterialOverrides>,
}

/// An entity with its GPU model, as the draw pass reads it.
pub struct Drawable {
    pub transform: Transform,
    pub model: LoadedGLTFModel,
    pub material_overrides: Option<MaterialOverrides>,
}

/// A texture id, or the "no texture" id where there is none.
pub open spec fn texture_id(id: Option<u32>) -> u32 {
    match id {
        Some(t) => t,
        None => NO_TEXTURE_ID,
    }
}

/// The material that an uploaded primitive gives.
pub open spec fn material_of(p: UploadedPrimitive) -> GPUMaterial {
    GPUMaterial {
        emissive_texture_id: texture_id(p.textures.emissive),
        metallic_roughness_ao_texture_id: texture_id(p.textures.metallic_roughness_ao),
        normal_texture_id: texture_id(p.textures.normal),
        base_colour_texture_id: texture_id(p.textures.base_colour),
        base_colour_factor: p.base_colour_factor,
    }
}

fn resolve_texture(id: Option<u32>) -> (r: u32)
    ensures
        r == texture_id(id),
{
    match id {
        Some(t) => t,
        None => NO_TEXTURE_ID,
    }
}

/// Builds the material of an uploaded primitive; an absent texture becomes
/// `NO_TEXTURE_ID`, never an error.
pub fn import_material(p: &UploadedPrimitive) -> (r: GPUMaterial)
    ensures
        r == material_of(*p),
{
    GPUMaterial {
        emissive_texture_id: resolve_texture(p.textures.emissive),
        metallic_roughness_ao_texture_id: resolve_texture(p.textures.metallic_roughness_ao),
        normal_texture_id: resolve_texture(p.textures.normal),
        base_colour_texture_id: resolve_texture(p.textures.base_colour),
        base_colour_factor: p.base_colour_factor,
    }
}

/// The positions of `names` that need an upload, given the names already
/// cached: the first occurrence of each name not cached.
pub open spec fn first_uncached(cached: Set<Seq<char>>, names: Seq<Seq<char>>) -> Seq<int>
    decreases names.len(),
{
    if names.len() == 0 {
        Seq::empty()
    } else {
        let n = names.len() - 1;
        let rest = first_uncached(cached, names.take(n));
        if !cached.contains(names[n]) && !names.take(n).contains(names[n]) {
            rest.push(n)
        } else {
            rest
        }
    }
}

/// A model handed to an entity by an update.
pub struct GpuAttachment {
    pub entity: hecs::Entity,
    pub model: LoadedGLTFModel,
}

/// The positions that `first_uncached` gives for a prefix of the names are a
/// prefix of those it gives for all of them.
pub proof fn lemma_first_uncached_prefix(cached: Set<Seq<char>>, names: Seq<Seq<char>>, m: int)
    requires
        0 <= m <= names.len(),
    ensures
        first_uncached(cached, names.take(m)).len() <= first_uncached(cached, names).len(),
        first_uncached(cached, names.take(m)) == first_uncached(cached, names).take(
            first_uncached(cached, names.take(m)).len() as int,
        ),
    decreases names.len(),
{
    if m == names.len() {
        assert(names.take(m) =~= names);
        assert(first_uncached(cached, names).take(first_uncached(cached, names).len() as int)
            =~= first_uncached(cached, names));
    } else {
        let n = names.len() - 1;
        assert(names.take(n).take(m) =~= names.take(m));
        lemma_first_uncached_prefix(cached, names.take(n), m);
        let a = first_uncached(cached, names.take(m));
        let b = first_uncached(cached, names.take(n));
        let c = first_uncached(cached, names);
        assert(b == c.take(b.len() as int) || b == c) by {
            if c.len() > b.len() {
                assert(c == b.push(n));
                assert(c.take(b.len() as int) =~= b);
            }
        }
        assert(b.len() <= c.len());
        assert(a =~= c.take(a.len() as int)) by {
            if b != c {
                assert(a == b.take(a.len() as int));
                assert(forall|i: int| 0 <= i < a.len() ==> #[trigger] a[i] == b[i]);
            }
        }
    }
}

/// Every position that `first_uncached` gives is in range and names an
/// uncached name for the first time; positions rise.
pub proof fn lemma_first_uncached_positions(cached: Set<Seq<char>>, names: Seq<Seq<char>>)
    ensures
        forall|k: int|
            0 <= k < first_uncached(cached, names).len() ==> {
                let i = #[trigger] first_uncached(cached, names)[k];
                &&& 0 <= i < names.len()
                &&& !cached.contains(names[i])
                &&& !names.take(i).contains(names[i])
            },
        forall|k1: int, k2: int|
            0 <= k1 < k2 < first_uncached(cached, names).len() ==> #[trigger] first_uncached(
                cached,
                names,
            )[k1] < #[trigger] first_uncached(cached, names)[k2],
    decreases names.len(),
{
    if names.len() > 0 {
        let n = names.len() - 1;
        let t = names.take(n);
        lemma_first_uncached_positions(cached, t);
        let rest = first_uncached(cached, t);
        assert forall|k: int| 0 <= k < rest.len() implies {
            let i = #[trigger] rest[k];
            &&& 0 <= i < names.len()
            &&& !cached.contains(names[i])
            &&& !names.take(i).contains(names[i])
        } by {
            let i = rest[k];
            assert(t[i] == names[i]);
            assert(t.take(i) =~= names.take(i));
        }
    }
}

/// An uncached name appears at one of the positions `first_uncached` gives.
pub proof fn lemma_first_uncached_covers(cached: Set<Seq<char>>, names: Seq<Seq<char>>, j: int)
    requires
        0 <= j < names.len(),
        !cached.contains(names[j]),
    ensures
        exists|k: int|
            0 <= k < first_uncached(cached, names).len() && names[#[trigger] first_uncached(
                cached,
                names,
            )[k]] == names[j],
    decreases names.len(),
{
    let n = names.len() - 1;
    let t = names.take(n);
    let rest = first_uncached(cached, t);
    let all = first_uncached(cached, names);
    if j < n {
        lemma_first_uncached_covers(cached, t, j);
        let k = choose|k: int| 0 <= k < rest.len() && t[#[trigger] rest[k]] == t[j];
        lemma_first_uncached_positions(cached, t);
        assert(all[k] == rest[k]);
        assert(t[rest[k]] == names[rest[k]]);
    } else if t.contains(names[j]) {
        let j2 = choose|j2: int| 0 <= j2 < t.len() && t[j2] == names[j];
        lemma_first_uncached_covers(cached, t, j2);
        let k = choose|k: int| 0 <= k < rest.len() && t[#[trigger] rest[k]] == t[j2];
        lemma_first_uncached_positions(cached, t);
        assert(all[k] == rest[k]);
        assert(t[rest[k]] == names[rest[k]]);
    } else {
        assert(all[rest.len() as int] == n);
    }
}

/// The names of a batch of GPU requests.
pub open spec fn gpu_request_names(requests: Seq<GpuRequest>) -> Seq<Seq<char>> {
    requests.map_values(|r: GpuRequest| r.name@)
}

/// The primitives of a batch of uploads.
pub open spec fn upload_primitives(uploads: Seq<UploadedModel>) -> Seq<Seq<UploadedPrimitive>> {
    uploads.map_values(|u: UploadedModel| u.primitives@)
}

/// What an update owes, given the cache before and after it, the requested
/// names and the uploads the backend made for the positions that
/// `first_uncached` gives (the `k`-th upload for the `k`-th position): every
/// requested name is cached, names cached before keep their models, each
/// newly cached name holds its upload, the tables only grow, and the upload
/// count rises by the number of uploads.
pub open spec fn update_outcome(
    before: GpuAssetCache,
    after: GpuAssetCache,
    names: Seq<Seq<char>>,
    uploads: Seq<Seq<UploadedPrimitive>>,
) -> bool {
    let positions = first_uncached(before.cached().dom(), names);
    &&& after.cached().dom() == before.cached().dom().union(names.to_set())
    &&& forall|k: Seq<char>| #[trigger]
        before.cached().contains_key(k) ==> after.cached()[k] == before.cached()[k]
    &&& forall|k: int|
        0 <= k < positions.len() ==> after.holds_upload(
            after.cached()[names[#[trigger] positions[k]]],
            uploads[k],
        )
    &&& before.geometry_table().len() <= after.geometry_table().len()
    &&& after.geometry_table().take(before.geometry_table().len() as int) == before.geometry_table()
    &&& before.material_table().len() <= after.material_table().len()
    &&& after.material_table().take(before.material_table().len() as int) == before.material_table()
    &&& after.upload_total() == before.upload_total() + positions.len()
}

/// The draw calls of one entity: one per primitive of its model.
pub open spec fn draw_calls_of_one(d: Drawable) -> Seq<DrawCall> {
    d.model.primitives@.map_values(
        |p: GPUPrimitive|
            DrawCall {
                geometry: p.geometry,
                material: p.material,
                transform: d.transform,
                material_overrides: d.material_overrides,
            },
    )
}

/// The draw calls of a list of entities, entity by entity.
pub open spec fn draw_calls_of(ds: Seq<Drawable>) -> Seq<DrawCall>
    decreases ds.len(),
{
    if ds.len() == 0 {
        Seq::empty()
    } else {
        draw_calls_of(ds.drop_last()) + draw_calls_of_one(ds.last())
    }
}

fn copy_overrides(o: &Option<MaterialOverrides>) -> (r: Option<MaterialOverrides>)
    ensures
        r == *o,
{
    match o {
        Some(m) => Some(MaterialOverrides { base_colour_factor: m.base_colour_factor }),
        None => None,
    }
}

/// The GPU asset cache, with the geometry and material tables its handles
/// point into.
pub struct GpuAssetCache {
    geometry: Vec<GeometryOffsets>,
    materials: Vec<GPUMaterial>,
    entries: Vec<(String, LoadedGLTFModel)>,
    uploads: usize,
}

impl GpuAssetCache {
    /// The cached GPU models by asset name.
    pub closed spec fn cached(&self) -> Map<Seq<char>, LoadedGLTFModel> {
        map_of(self.entries@)
    }

    /// The geometry table.
    pub closed spec fn geometry_table(&self) -> Seq<GeometryOffsets> {
        self.geometry@
    }

    /// The material table.
    pub closed spec fn material_table(&self) -> Seq<GPUMaterial> {
        self.materials@
    }

    /// How many models were uploaded since the cache was made or last
    /// emptied.
    pub closed spec fn upload_total(&self) -> nat {
        self.uploads as nat
    }

    /// Every handle of `m` points into the tables.
    pub open spec fn resolves(&self, m: LoadedGLTFModel) -> bool {
        forall|p: int|
            0 <= p < m.primitives@.len() ==> {
                &&& (#[trigger] m.primitives@[p]).geometry < self.geometry_table().len()
                &&& m.primitives@[p].material < self.material_table().len()
            }
    }

    /// `m` holds the geometry and materials of `u`, primitive by primitive.
    pub open spec fn holds_upload(&self, m: LoadedGLTFModel, u: Seq<UploadedPrimitive>) -> bool {
        &&& m.primitives@.len() == u.len()
        &&& self.resolves(m)
        &&& forall|p: int|
            0 <= p < u.len() ==> {
                &&& self.geometry_table()[(#[trigger] m.primitives@[p]).geometry as int] == u[p].geometry
                &&& self.material_table()[m.primitives@[p].material as int] == material_of(u[p])
            }
    }

    /// One entry per name, every cached model resolves, and the count of
    /// uploads is at least the number of cached models.
    pub closed spec fn wf(&self) -> bool {
        &&& names_distinct(self.entries@)
        &&& forall|k: Seq<char>| #[trigger] self.cached().contains_key(k) ==> self.resolves(self.cached()[k])
        &&& self.entries@.len() <= self.uploads
    }

    /// An empty cache with empty tables.
    pub fn new() -> (r: Self)
        ensures
            r.wf(),
            r.cached() == Map::<Seq<char>, LoadedGLTFModel>::empty(),
            r.upload_total() == 0,
            r.geometry_table().len() == 0,
            r.material_table().len() == 0,
    {
        GpuAssetCache { geometry: Vec::new(), materials: Vec::new(), entries: Vec::new(), uploads: 0 }
    }

    /// Number of models uploaded since the cache was made or last emptied.
    pub fn upload_count(&self) -> (r: usize)
        ensures
            r == self.upload_total(),
    {
        self.uploads
    }

    /// Number of cached models.
    pub fn len(&self) -> (r: usize)
        requires
            self.wf(),
        ensures
            r == self.cached().len(),
    {
        proof {
            lemma_map_of_entries(self.entries@);
        }
        self.entries.len()
    }

    /// The geometry behind a handle.
    pub fn geometry(&self, handle: usize) -> (r: Option<GeometryOffsets>)
        ensures
            r == (if handle < self.geometry_table().len() {
                Some(self.geometry_table()[handle as int])
            } else {
                None
            }),
    {
        if handle < self.geometry.len() {
            Some(self.geometry[handle])
        } else {
            None
        }
    }

    /// The material behind a handle.
    pub fn material(&self, handle: usize) -> (r: Option<GPUMaterial>)
        ensures
            r == (if handle < self.material_table().len() {
                Some(self.material_table()[handle as int])
            } else {
                None
            }),
    {
        if handle < self.materials.len() {
            Some(self.materials[handle])
        } else {
            None
        }
    }

    fn position(&self, name: &String) -> (r: Option<usize>)
        requires
            self.wf(),
        ensures
            match r {
                Some(i) => i < self.entries@.len() && self.entries@[i as int].0@ == name@,
                None => !self.cached().contains_key(name@),
            },
    {
        proof {
            lemma_map_of_entries(self.entries@);
        }
        let mut i: usize = 0;
        while i < self.entries.len()
            invariant
                i <= self.entries@.len(),
                forall|j: int| 0 <= j < i ==> self.entries@[j].0@ != name@,
            decreases self.entries@.len() - i,
        {
            if self.entries[i].0 == *name {
                return Some(i);
            }
            i = i + 1;
        }
        None
    }

    /// The GPU model cached under `name`, if any.
    pub fn get(&self, name: &String) -> (r: Option<LoadedGLTFModel>)
        requires
            self.wf(),
        ensures
            match r {
                Some(m) => self.cached().contains_key(name@) && m.primitives@ == self.cached()[name@].primitives@,
                None => !self.cached().contains_key(name@),
            },
    {
        proof {
            lemma_map_of_entries(self.entries@);
        }
        match self.position(name) {
            Some(i) => Some(self.entries[i].1.duplicate()),
            None => None,
        }
    }

    /// The positions of `requests` whose asset needs an upload: the first
    /// request of each name not cached. The backend uploads those models, in
    /// this order, before `update_assets`.
    pub fn uploads_needed(&self, requests: &Vec<GpuRequest>) -> (r: Vec<usize>)
        requires
            self.wf(),
        ensures
            r@.map_values(|i: usize| i as int) == first_uncached(
                self.cached().dom(),
                gpu_request_names(requests@),
            ),
    {
        let ghost names = gpu_request_names(requests@);
        let mut r: Vec<usize> = Vec::new();
        let mut i: usize = 0;
        while i < requests.len()
            invariant
                self.wf(),
                i <= requests@.len(),
                names == gpu_request_names(requests@),
                r@.map_values(|x: usize| x as int) == first_uncached(
                    self.cached().dom(),
                    names.take(i as int),
                ),
            decreases requests@.len() - i,
        {
            let name = &requests[i].name;
            let mut seen = false;
            let mut j: usize = 0;
            while j < i
                invariant
                    j <= i < requests@.len(),
                    names == gpu_request_names(requests@),
                    name@ == requests@[i as int].name@,
                    seen == exists|k: int| 0 <= k < j && names[k] == names[i as int],
                decreases i - j,
            {
                proof {
                    assert(names[j as int] == requests@[j as int].name@);
                    assert(names[i as int] == requests@[i as int].name@);
                }
                if requests[j].name == *name {
                    seen = true;
                }
                proof {
                    if names[j as int] == names[i as int] {
                        assert(0 <= j < j + 1 && names[j as int] == names[i as int]);
                    } else {
                        assert forall|k: int| 0 <= k < j + 1 && names[k] == names[i as int] implies k < j by {}
                    }
                }
                j = j + 1;
            }
            let ghost before = r@;
            let cached = self.position(name).is_some();
            proof {
                lemma_map_of_entries(self.entries@);
                assert(names[i as int] == requests@[i as int].name@);
                if cached {
                    let p = choose|p: int| 0 <= p < self.entries@.len() && self.entries@[p].0@ == name@;
                }
                assert(cached == self.cached().dom().contains(names[i as int]));
            }
            if !cached && !seen {
                r.push(i);
            }
            proof {
                let t = names.take(i + 1);
                assert(t.take(i as int) =~= names.take(i as int));
                assert(t[i as int] == names[i as int]);
                assert(names[i as int] == requests@[i as int].name@);
                assert(names.take(i as int).contains(names[i as int]) == seen) by {
                    if seen {
                        let k = choose|k: int| 0 <= k < i && names[k] == names[i as int];
                        assert(names.take(i as int)[k] == names[k]);
                    }
                }
                if !cached && !seen {
                    assert(r@.map_values(|x: usize| x as int) =~= before.map_values(
                        |x: usize| x as int,
                    ).push(i as int));
                }
            }
            i = i + 1;
        }
        proof {
            assert(names.take(requests@.len() as int) =~= names);
        }
        r
    }

    fn store_upload(&mut self, upload: &UploadedModel) -> (r: LoadedGLTFModel)
        requires
            old(self).wf(),
        ensures
            final(self).entries@ == old(self).entries@,
            final(self).uploads == old(self).uploads,
            final(self).holds_upload(r, upload.primitives@),
            old(self).geometry_table().len() <= final(self).geometry_table().len(),
            final(self).geometry_table().take(old(self).geometry_table().len() as int)
                == old(self).geometry_table(),
            old(self).material_table().len() <= final(self).material_table().len(),
            final(self).material_table().take(old(self).material_table().len() as int)
                == old(self).material_table(),
    {
        let ghost geometry0 = self.geometry@;
        let ghost materials0 = self.materials@;
        let mut primitives: Vec<GPUPrimitive> = Vec::new();
        let mut p: usize = 0;
        while p < upload.primitives.len()
            invariant
                p <= upload.primitives@.len(),
                primitives@.len() == p,
                self.entries@ == old(self).entries@,
                self.uploads == old(self).uploads,
                geometry0 == old(self).geometry@,
                materials0 == old(self).materials@,
                geometry0.len() <= self.geometry@.len(),
                self.geometry@.take(geometry0.len() as int) == geometry0,
                materials0.len() <= self.materials@.len(),
                self.materials@.take(materials0.len() as int) == materials0,
                forall|q: int|
                    0 <= q < p ==> {
                        &&& (#[trigger] primitives@[q]).geometry < self.geometry@.len()
                        &&& primitives@[q].material < self.materials@.len()
                        &&& self.geometry@[primitives@[q].geometry as int] == upload.primitives@[q].geometry
                        &&& self.materials@[primitives@[q].material as int] == material_of(upload.primitives@[q])
                    },
            decreases upload.primitives@.len() - p,
        {
            let uploaded = &upload.primitives[p];
            let geometry = self.geometry.len();
            self.geometry.push(uploaded.geometry);
            let material = self.materials.len();
            self.materials.push(import_material(uploaded));
            primitives.push(GPUPrimitive { geometry, material });
            proof {
                assert(self.geometry@.take(geometry0.len() as int) =~= geometry0);
                assert(self.materials@.take(materials0.len() as int) =~= materials0);
            }
            p = p + 1;
        }
        LoadedGLTFModel { primitives }
    }

    /// Gives each request the GPU model of its asset. A name already cached
    /// is served from the cache; the first request of each other name takes
    /// the next of `uploads`, whose geometry and materials enter the tables,
    /// and the name is cached. No name is uploaded twice.
    pub fn update_assets(&mut self, requests: &Vec<GpuRequest>, uploads: &Vec<UploadedModel>) -> (r: Vec<
        GpuAttachment,
    >)
        requires
            old(self).wf(),
            uploads@.len() == first_uncached(
                old(self).cached().dom(),
                gpu_request_names(requests@),
            ).len(),
            old(self).upload_total() + uploads@.len() <= usize::MAX,
        ensures
            final(self).wf(),
            update_outcome(
                *old(self),
                *final(self),
                gpu_request_names(requests@),
                upload_primitives(uploads@),
            ),
            r@.len() == requests@.len(),
            forall|i: int|
                0 <= i < requests@.len() ==> {
                    &&& (#[trigger] r@[i]).entity == requests@[i].entity
                    &&& r@[i].model.primitives@ == final(self).cached()[requests@[i].name@].primitives@
                },
    {
        let ghost names = gpu_request_names(requests@);
        let ghost dom0 = self.cached().dom();
        let ghost start = *self;
        let ghost positions = first_uncached(dom0, names);
        let mut attachments: Vec<GpuAttachment> = Vec::new();
        let mut next: usize = 0;
        let mut i: usize = 0;
        while i < requests.len()
            invariant
                self.wf(),
                i <= requests@.len(),
                names == gpu_request_names(requests@),
                dom0 == start.cached().dom(),
                positions == first_uncached(dom0, names),
                uploads@.len() == positions.len(),
                start.upload_total() + uploads@.len() <= usize::MAX,
                next == first_uncached(dom0, names.take(i as int)).len(),
                next <= positions.len(),
                self.upload_total() == start.upload_total() + next,
                self.cached().dom() == dom0.union(names.take(i as int).to_set()),
                forall|k: Seq<char>| #[trigger]
                    start.cached().contains_key(k) ==> self.cached()[k] == start.cached()[k],
                forall|k: int|
                    0 <= k < next ==> self.holds_upload(
                        self.cached()[names[#[trigger] positions[k]]],
                        upload_primitives(uploads@)[k],
                    ),
                start.geometry_table().len() <= self.geometry_table().len(),
                self.geometry_table().take(start.geometry_table().len() as int) == start.geometry_table(),
                start.material_table().len() <= self.material_table().len(),
                self.material_table().take(start.material_table().len() as int) == start.material_table(),
                attachments@.len() == i,
                forall|q: int|
                    0 <= q < i ==> {
                        &&& (#[trigger] attachments@[q]).entity == requests@[q].entity
                        &&& self.cached().contains_key(requests@[q].name@)
                        &&& attachments@[q].model.primitives@ == self.cached()[requests@[q].name@].primitives@
                    },
            decreases requests@.len() - i,
        {
            let request = &requests[i];
            let ghost before = *self;
            let ghost att0 = attachments@;
            proof {
                lemma_map_of_entries(self.entries@);
                lemma_first_uncached_prefix(dom0, names, i + 1);
                lemma_first_uncached_positions(dom0, names);
                assert(names.take(i + 1).take(i as int) =~= names.take(i as int));
                assert(names.take(i + 1)[i as int] == names[i as int]);
                assert(names[i as int] == request.name@);
            }
            match self.position(&request.name) {
                Some(p) => {
                    let model = self.entries[p].1.duplicate();
                    attachments.push(GpuAttachment { entity: request.entity, model });
                    proof {
                        assert(self.entries@[p as int].0@ == request.name@);
                        assert(self.cached().contains_key(request.name@));
                        assert(self.cached().dom().contains(names[i as int]));
                        assert(names.take(i as int).to_set().contains(names[i as int]) || dom0.contains(
                            names[i as int],
                        ));
                        assert(!(!dom0.contains(names[i as int]) && !names.take(i as int).contains(
                            names[i as int],
                        ))) by {
                            if names.take(i as int).to_set().contains(names[i as int]) {
                                assert(names.take(i as int).contains(names[i as int]));
                            }
                        }
                        assert(names.take(i + 1).to_set() =~= names.take(i as int).to_set().insert(
                            names[i as int],
                        )) by {
                            assert(names.take(i + 1) =~= names.take(i as int).push(names[i as int]));
                        }
                        assert(self.cached().dom() =~= dom0.union(names.take(i + 1).to_set()));
                    }
                },
                None => {
                    proof {
                        assert(!dom0.contains(names[i as int]));
                        assert(!names.take(i as int).contains(names[i as int])) by {
                            if names.take(i as int).contains(names[i as int]) {
                                let k = choose|k: int|
                                    0 <= k < i && names.take(i as int)[k] == names[i as int];
                                assert(names.take(i as int).to_set().contains(names.take(i as int)[k]));
                            }
                        }
                        assert(first_uncached(dom0, names.take(i + 1)) == first_uncached(
                            dom0,
                            names.take(i as int),
                        ).push(i as int));
                        let f1 = first_uncached(dom0, names.take(i + 1));
                        assert(f1.len() == next + 1);
                        assert(f1[next as int] == i as int);
                        assert(positions.take(f1.len() as int)[next as int] == positions[next as int]);
                        assert(positions[next as int] == i as int);
                    }
                    let model = self.store_upload(&uploads[next]);
                    let ghost stored = *self;
                    let attached = model.duplicate();
                    self.entries.push((request.name.clone(), model));
                    self.uploads = self.uploads + 1;
                    attachments.push(GpuAttachment { entity: request.entity, model: attached });
                    proof {
                        let e = self.entries@;
                        assert(e.drop_last() == stored.entries@);
                        assert(self.cached() == stored.cached().insert(request.name@, e.last().1));
                        assert(names_distinct(e)) by {
                            lemma_map_of_entries(stored.entries@);
                            assert forall|a: int, b: int| 0 <= a < b < e.len() implies #[trigger] e[a].0@
                                != #[trigger] e[b].0@ by {
                                if b == e.len() - 1 {
                                    assert(e[a] == stored.entries@[a]);
                                    assert(stored.cached().contains_key(stored.entries@[a].0@));
                                } else {
                                    assert(e[a] == stored.entries@[a] && e[b] == stored.entries@[b]);
                                }
                            }
                        }
                        assert(names.take(i + 1).to_set() =~= names.take(i as int).to_set().insert(
                            names[i as int],
                        )) by {
                            assert(names.take(i + 1) =~= names.take(i as int).push(names[i as int]));
                        }
                        assert(self.cached().dom() =~= dom0.union(names.take(i + 1).to_set()));
                        assert(self.geometry_table() == stored.geometry_table());
                        assert(self.material_table() == stored.material_table());
                        // Models cached earlier still resolve in the grown tables.
                        assert forall|k: Seq<char>| #[trigger] self.cached().contains_key(k) implies self.resolves(
                            self.cached()[k],
                        ) by {
                            if k != request.name@ {
                                let m = before.cached()[k];
                                assert forall|q: int| 0 <= q < m.primitives@.len() implies {
                                    &&& (#[trigger] m.primitives@[q]).geometry < self.geometry_table().len()
                                    &&& m.primitives@[q].material < self.material_table().len()
                                } by {
                                    assert(before.resolves(m));
                                }
                            }
                        }
                        assert forall|k: int| 0 <= k < next + 1 implies self.holds_upload(
                            self.cached()[names[#[trigger] positions[k]]],
                            upload_primitives(uploads@)[k],
                        ) by {
                            if k < next {
                                let fi = first_uncached(dom0, names.take(i as int));
                                lemma_first_uncached_prefix(dom0, names, i as int);
                                lemma_first_uncached_positions(dom0, names.take(i as int));
                                assert(fi[k] == positions[k]);
                                assert(names.take(i as int)[positions[k]] == names[positions[k]]);
                                assert(names.take(i as int).to_set().contains(names[positions[k]]));
                                assert(before.cached().contains_key(names[positions[k]]));
                                let m = before.cached()[names[positions[k]]];
                                assert(before.holds_upload(m, upload_primitives(uploads@)[k]));
                                assert(names[positions[k]] != request.name@);
                                assert forall|q: int| 0 <= q < m.primitives@.len() implies {
                                    &&& self.geometry_table()[(#[trigger] m.primitives@[q]).geometry as int]
                                        == before.geometry_table()[m.primitives@[q].geometry as int]
                                    &&& self.material_table()[m.primitives@[q].material as int]
                                        == before.material_table()[m.primitives@[q].material as int]
                                } by {
                                    assert(self.geometry_table().take(before.geometry_table().len() as int)[m.primitives@[q].geometry as int] == self.geometry_table()[m.primitives@[q].geometry as int]);
                                    assert(self.material_table().take(before.material_table().len() as int)[m.primitives@[q].material as int] == self.material_table()[m.primitives@[q].material as int]);
                                }
                            } else {
                                assert(upload_primitives(uploads@)[k] == uploads@[k].primitives@);
                            }
                        }
                        assert(self.geometry_table().take(start.geometry_table().len() as int) =~= start.geometry_table()) by {
                            assert(self.geometry_table().take(before.geometry_table().len() as int) == before.geometry_table());
                            assert forall|q: int| 0 <= q < start.geometry_table().len() implies
                                self.geometry_table()[q] == start.geometry_table()[q] by {
                                assert(before.geometry_table().take(start.geometry_table().len() as int)[q] == before.geometry_table()[q]);
                                assert(self.geometry_table().take(before.geometry_table().len() as int)[q] == self.geometry_table()[q]);
                            }
                        }
                        assert(self.material_table().take(start.material_table().len() as int) =~= start.material_table()) by {
                            assert(self.material_table().take(before.material_table().len() as int) == before.material_table());
                            assert forall|q: int| 0 <= q < start.material_table().len() implies
                                self.material_table()[q] == start.material_table()[q] by {
                                assert(before.material_table().take(start.material_table().len() as int)[q] == before.material_table()[q]);
                                assert(self.material_table().take(before.material_table().len() as int)[q] == self.material_table()[q]);
                            }
                        }
                    }
                    next = next + 1;
                },
            }
            proof {
                assert forall|q: int| 0 <= q < i + 1 implies {
                    &&& (#[trigger] attachments@[q]).entity == requests@[q].entity
                    &&& self.cached().contains_key(requests@[q].name@)
                    &&& attachments@[q].model.primitives@ == self.cached()[requests@[q].name@].primitives@
                } by {
                    if q < i {
                        assert(att0[q] == attachments@[q]);
                        assert(att0[q].entity == requests@[q].entity);
                        assert(before.cached().contains_key(requests@[q].name@));
                    }
                }
            }
            i = i + 1;
        }
        proof {
            assert(names.take(requests@.len() as int) =~= names);
        }
        attachments
    }

    /// Drops every cached model and empties both tables, as a freshly made
    /// cache is. The backend waits for the GPU to go idle and frees the
    /// resources first; until the next update, handles that entities still
    /// hold point nowhere and must not be drawn.
    pub fn unload_assets(&mut self)
        ensures
            final(self).wf(),
            final(self).cached() == Map::<Seq<char>, LoadedGLTFModel>::empty(),
            final(self).upload_total() == 0,
            final(self).geometry_table().len() == 0,
            final(self).material_table().len() == 0,
    {
        self.geometry = Vec::new();
        self.materials = Vec::new();
        self.entries = Vec::new();
        self.uploads = 0;
    }


    /// Assembles the draw calls of the entities that hold a GPU model: one per
    /// primitive, with the entity's transform and colour override. Reads the
    /// handles only.
    pub fn build_draw_calls(&self, drawables: &Vec<Drawable>) -> (r: Vec<DrawCall>)
        ensures
            r@ == draw_calls_of(drawables@),
    {
        let mut calls: Vec<DrawCall> = Vec::new();
        let mut i: usize = 0;
        while i < drawables.len()
            invariant
                i <= drawables@.len(),
                calls@ == draw_calls_of(drawables@.take(i as int)),
            decreases drawables@.len() - i,
        {
            let d = &drawables[i];
            let ghost before = calls@;
            let mut p: usize = 0;
            while p < d.model.primitives.len()
                invariant
                    p <= d.model.primitives@.len(),
                    d == drawables@[i as int],
                    calls@ == before + draw_calls_of_one(*d).take(p as int),
                decreases d.model.primitives@.len() - p,
            {
                let primitive = d.model.primitives[p];
                calls.push(
                    DrawCall {
                        geometry: primitive.geometry,
                        material: primitive.material,
                        transform: d.transform,
                        material_overrides: copy_overrides(&d.material_overrides),
                    },
                );
                proof {
                    assert(draw_calls_of_one(*d).take(p + 1) =~= draw_calls_of_one(*d).take(p as int).push(
                        draw_calls_of_one(*d)[p as int],
                    ));
                }
                p = p + 1;
            }
            proof {
                assert(draw_calls_of_one(*d).take(d.model.primitives@.len() as int) =~= draw_calls_of_one(*d));
                assert(drawables@.take(i + 1).drop_last() =~= drawables@.take(i as int));
            }
            i = i + 1;
        }
        proof {
            assert(drawables@.take(drawables@.len() as int) =~= drawables@);
        }
        calls
    }

}

} // verus!
