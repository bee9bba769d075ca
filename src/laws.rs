//! What holds of the loader over whole ticks, stated over the contracts of
//! `AssetLoader::apply_tick` and `AssetLoader::load_assets` and the model of
//! the entity store.
use crate::components::GLTFModel;
use crate::job_table::AssetLoadState;
use crate::loader::{
    command_entity, missing_names, resolution_commands, tick_outcome, AssetCommand, AssetRequest,
    InFlightRequest,
};
use crate::gpu_cache::{
    first_uncached, lemma_first_uncached_covers, lemma_first_uncached_positions, update_outcome,
    GpuAssetCache, UploadedPrimitive,
};
use crate::store::{
    apply_commands, command_effect, entities_distinct, lemma_apply_distinct, scan_of,
    single_resolution, AssetSlots,
};
use vstd::prelude::*;

verus! {

proof fn lemma_no_missing_names(cache: Map<Seq<char>, GLTFModel>, pending: Seq<AssetRequest>)
    requires
        forall|i: int| 0 <= i < pending.len() ==> cache.contains_key(#[trigger] pending[i].asset.name@),
    ensures
        missing_names(cache, pending) == Seq::<Seq<char>>::empty(),
    decreases pending.len(),
{
    if pending.len() > 0 {
        let n = pending.len() - 1;
        assert forall|i: int| 0 <= i < n implies cache.contains_key(
            #[trigger] pending.take(n)[i].asset.name@,
        ) by {
            assert(pending.take(n)[i] == pending[i]);
        }
        lemma_no_missing_names(cache, pending.take(n));
    }
}

/// Every resolution command is about an entity of `in_flight`, no two about
/// the same one; a failed job gives `Abandon` and a loaded one `Finish` with
/// its model.
proof fn lemma_resolution_commands(in_flight: Seq<InFlightRequest>, polled: Seq<AssetLoadState>)
    requires
        polled.len() == in_flight.len(),
        forall|i: int, j: int|
            0 <= i < j < in_flight.len() ==> #[trigger] in_flight[i].entity
                != #[trigger] in_flight[j].entity,
    ensures
        entities_distinct(resolution_commands(in_flight, polled)),
        forall|k: int|
            0 <= k < resolution_commands(in_flight, polled).len() ==> exists|i: int|
                0 <= i < in_flight.len() && command_entity(
                    #[trigger] resolution_commands(in_flight, polled)[k],
                ) == in_flight[i].entity,
        forall|i: int|
            0 <= i < in_flight.len() && #[trigger] polled[i] is Failed ==> exists|k: int|
                0 <= k < resolution_commands(in_flight, polled).len() && resolution_commands(
                    in_flight,
                    polled,
                )[k] == AssetCommand::Abandon(in_flight[i].entity),
        forall|i: int|
            0 <= i < in_flight.len() && #[trigger] polled[i] is Loaded ==> exists|k: int|
                0 <= k < resolution_commands(in_flight, polled).len() && resolution_commands(
                    in_flight,
                    polled,
                )[k] == AssetCommand::Finish(in_flight[i].entity, polled[i]->Loaded_0),
    decreases in_flight.len(),
{
    if in_flight.len() > 0 {
        let n = in_flight.len() - 1;
        let fi = in_flight.take(n);
        let po = polled.take(n);
        assert forall|i: int, j: int| 0 <= i < j < fi.len() implies #[trigger] fi[i].entity
            != #[trigger] fi[j].entity by {
            assert(fi[i] == in_flight[i] && fi[j] == in_flight[j]);
        }
        lemma_resolution_commands(fi, po);
        let rest = resolution_commands(fi, po);
        let res = resolution_commands(in_flight, polled);
        assert forall|k: int| 0 <= k < rest.len() implies command_entity(#[trigger] rest[k])
            != in_flight[n].entity by {
            let i = choose|i: int| 0 <= i < fi.len() && command_entity(rest[k]) == fi[i].entity;
            assert(fi[i] == in_flight[i]);
        }
        assert forall|k: int| 0 <= k < rest.len() implies #[trigger] res[k] == rest[k] by {}
        assert forall|k: int| 0 <= k < res.len() implies exists|i: int|
            0 <= i < in_flight.len() && command_entity(#[trigger] res[k]) == in_flight[i].entity by {
            if k < rest.len() {
                let i = choose|i: int| 0 <= i < fi.len() && command_entity(rest[k]) == fi[i].entity;
                assert(fi[i] == in_flight[i]);
            } else {
                assert(command_entity(res[k]) == in_flight[n].entity);
            }
        }
        assert forall|i: int|
            0 <= i < in_flight.len() && #[trigger] polled[i] is Failed implies exists|k: int|
                0 <= k < res.len() && res[k] == AssetCommand::Abandon(in_flight[i].entity) by {
            if i < n {
                assert(fi[i] == in_flight[i] && po[i] == polled[i]);
                let k = choose|k: int|
                    0 <= k < rest.len() && rest[k] == AssetCommand::Abandon(fi[i].entity);
                assert(res[k] == rest[k]);
            } else {
                assert(res[rest.len() as int] == AssetCommand::Abandon(in_flight[i].entity));
            }
        }
        assert forall|i: int|
            0 <= i < in_flight.len() && #[trigger] polled[i] is Loaded implies exists|k: int|
                0 <= k < res.len() && res[k] == AssetCommand::Finish(
                    in_flight[i].entity,
                    polled[i]->Loaded_0,
                ) by {
            if i < n {
                assert(fi[i] == in_flight[i] && po[i] == polled[i]);
                let k = choose|k: int|
                    0 <= k < rest.len() && rest[k] == AssetCommand::Finish(
                        fi[i].entity,
                        po[i]->Loaded_0,
                    );
                assert(res[k] == rest[k]);
            } else {
                assert(res[rest.len() as int] == AssetCommand::Finish(
                    in_flight[i].entity,
                    polled[i]->Loaded_0,
                ));
            }
        }
    }
}

/// The commands of a tick over a scan of `store` are each about a different
/// entity.
proof fn lemma_tick_entities_distinct(
    store: Map<hecs::Entity, AssetSlots>,
    pending: Seq<AssetRequest>,
    in_flight: Seq<InFlightRequest>,
    polled: Seq<AssetLoadState>,
    commands: Seq<AssetCommand>,
    cache_before: Map<Seq<char>, GLTFModel>,
    jobs_before: Set<u64>,
    cache_after_tick: Map<Seq<char>, GLTFModel>,
    jobs_after_tick: Set<u64>,
    requested: Seq<Seq<char>>,
)
    requires
        scan_of(store, pending, in_flight),
        polled.len() == in_flight.len(),
        tick_outcome(
            cache_before,
            jobs_before,
            cache_after_tick,
            jobs_after_tick,
            pending,
            in_flight,
            polled,
            commands,
            requested,
        ),
    ensures
        entities_distinct(commands),
        forall|k: int|
            0 <= k < pending.len() ==> command_entity(#[trigger] commands[k]) == pending[k].entity,
        forall|k: int|
            pending.len() <= k < commands.len() ==> #[trigger] commands[k] == resolution_commands(
                in_flight,
                polled,
            )[k - pending.len()],
{
    let n = pending.len() as int;
    let res = resolution_commands(in_flight, polled);
    lemma_resolution_commands(in_flight, polled);
    assert forall|k: int| n <= k < commands.len() implies #[trigger] commands[k] == res[k - n] by {
        assert(commands.subrange(n, commands.len() as int)[k - n] == commands[k]);
    }
    assert forall|k: int| 0 <= k < n implies command_entity(#[trigger] commands[k])
        == pending[k].entity by {
        assert(crate::loader::discovery_command(
            cache_before,
            jobs_before.difference(crate::loader::finished_jobs(in_flight, polled)),
            pending[k],
            commands[k],
        ));
    }
    assert forall|i: int, j: int| 0 <= i < j < commands.len() implies command_entity(
        #[trigger] commands[i],
    ) != command_entity(#[trigger] commands[j]) by {
        if j < n {
        } else if i < n {
            let ii = choose|ii: int|
                0 <= ii < in_flight.len() && command_entity(res[j - n]) == in_flight[ii].entity;
            let e = pending[i].entity;
            assert(store[e].token is None);
            assert(store[in_flight[ii].entity].token is Some);
        } else {
            assert(command_entity(res[i - n]) != command_entity(res[j - n]));
        }
    }
}

/// A tick never leaves an entity holding both a token and a model, nor a
/// token without a request: if the store had neither before, and the tick
/// ran on a scan of it, the store after its commands has neither.
pub proof fn lemma_tick_keeps_single_resolution(
    store: Map<hecs::Entity, AssetSlots>,
    pending: Seq<AssetRequest>,
    in_flight: Seq<InFlightRequest>,
    polled: Seq<AssetLoadState>,
    commands: Seq<AssetCommand>,
    cache_before: Map<Seq<char>, GLTFModel>,
    jobs_before: Set<u64>,
    cache_after_tick: Map<Seq<char>, GLTFModel>,
    jobs_after_tick: Set<u64>,
    requested: Seq<Seq<char>>,
)
    requires
        single_resolution(store),
        scan_of(store, pending, in_flight),
        polled.len() == in_flight.len(),
        tick_outcome(
            cache_before,
            jobs_before,
            cache_after_tick,
            jobs_after_tick,
            pending,
            in_flight,
            polled,
            commands,
            requested,
        ),
    ensures
        single_resolution(apply_commands(store, commands)),
{
    lemma_tick_entities_distinct(
        store,
        pending,
        in_flight,
        polled,
        commands,
        cache_before,
        jobs_before,
        cache_after_tick,
        jobs_after_tick,
        requested,
    );
    lemma_apply_distinct(store, commands);
    let n = pending.len() as int;
    let after = apply_commands(store, commands);
    assert forall|e: hecs::Entity| #[trigger] after.contains_key(e) implies {
        &&& !(after[e].token is Some && after[e].model is Some)
        &&& (after[e].token is Some ==> after[e].request is Some)
    } by {
        if exists|k: int| 0 <= k < commands.len() && command_entity(#[trigger] commands[k]) == e {
            let k = choose|k: int| 0 <= k < commands.len() && command_entity(#[trigger] commands[k]) == e;
            assert(after[e] == command_effect(commands[k], store[e]));
            if k < n {
                assert(crate::loader::discovery_command(
                    cache_before,
                    jobs_before.difference(crate::loader::finished_jobs(in_flight, polled)),
                    pending[k],
                    commands[k],
                ));
                assert(pending[k].entity == e);
            } else {
                let res = resolution_commands(in_flight, polled);
                assert(commands[k] == res[k - n]);
                assert(commands[k] is Finish || commands[k] is Abandon) by {
                    lemma_resolution_is_finish_or_abandon(in_flight, polled, k - n);
                }
            }
        } else {
            assert(after[e] == store[e]);
        }
    }
}

proof fn lemma_resolution_is_finish_or_abandon(
    in_flight: Seq<InFlightRequest>,
    polled: Seq<AssetLoadState>,
    k: int,
)
    requires
        0 <= k < resolution_commands(in_flight, polled).len(),
    ensures
        resolution_commands(in_flight, polled)[k] is Finish || resolution_commands(
            in_flight,
            polled,
        )[k] is Abandon,
    decreases in_flight.len(),
{
    if in_flight.len() > 0 {
        let n = in_flight.len() - 1;
        let rest = resolution_commands(in_flight.take(n), polled.take(n));
        if k < rest.len() {
            lemma_resolution_is_finish_or_abandon(in_flight.take(n), polled.take(n), k);
        }
    }
}

/// A tick whose requests all name cached assets starts no job and attaches
/// the cached model to every requesting entity.
pub proof fn lemma_cache_hits_start_no_jobs(
    pending: Seq<AssetRequest>,
    in_flight: Seq<InFlightRequest>,
    polled: Seq<AssetLoadState>,
    commands: Seq<AssetCommand>,
    cache_before: Map<Seq<char>, GLTFModel>,
    jobs_before: Set<u64>,
    cache_after_tick: Map<Seq<char>, GLTFModel>,
    jobs_after_tick: Set<u64>,
    requested: Seq<Seq<char>>,
)
    requires
        forall|i: int|
            0 <= i < pending.len() ==> cache_before.contains_key(#[trigger] pending[i].asset.name@),
        tick_outcome(
            cache_before,
            jobs_before,
            cache_after_tick,
            jobs_after_tick,
            pending,
            in_flight,
            polled,
            commands,
            requested,
        ),
    ensures
        requested.len() == 0,
        forall|i: int|
            0 <= i < pending.len() ==> #[trigger] commands[i] == AssetCommand::AttachModel(
                pending[i].entity,
                cache_before[pending[i].asset.name@],
            ),
{
    lemma_no_missing_names(cache_before, pending);
    assert forall|i: int| 0 <= i < pending.len() implies #[trigger] commands[i]
        == AssetCommand::AttachModel(pending[i].entity, cache_before[pending[i].asset.name@]) by {
        assert(crate::loader::discovery_command(
            cache_before,
            jobs_before.difference(crate::loader::finished_jobs(in_flight, polled)),
            pending[i],
            commands[i],
        ));
    }
}

/// A failed decode touches only its own entity: after the tick that
/// collects it, that entity holds no token, no request and no model, while
/// an entity whose job loaded holds the model and no token.
pub proof fn lemma_failed_decode_is_isolated(
    store: Map<hecs::Entity, AssetSlots>,
    pending: Seq<AssetRequest>,
    in_flight: Seq<InFlightRequest>,
    polled: Seq<AssetLoadState>,
    commands: Seq<AssetCommand>,
    cache_before: Map<Seq<char>, GLTFModel>,
    jobs_before: Set<u64>,
    cache_after_tick: Map<Seq<char>, GLTFModel>,
    jobs_after_tick: Set<u64>,
    requested: Seq<Seq<char>>,
    failed: int,
    loaded: int,
)
    requires
        single_resolution(store),
        scan_of(store, pending, in_flight),
        polled.len() == in_flight.len(),
        0 <= failed < in_flight.len(),
        0 <= loaded < in_flight.len(),
        polled[failed] is Failed,
        polled[loaded] is Loaded,
        tick_outcome(
            cache_before,
            jobs_before,
            cache_after_tick,
            jobs_after_tick,
            pending,
            in_flight,
            polled,
            commands,
            requested,
        ),
    ensures
        ({
            let after = apply_commands(store, commands);
            let f = in_flight[failed].entity;
            let l = in_flight[loaded].entity;
            &&& after[f].token is None
            &&& after[f].request is None
            &&& after[f].model is None
            &&& after[l].token is None
            &&& after[l].model == Some(polled[loaded]->Loaded_0)
        }),
{
    lemma_tick_entities_distinct(
        store,
        pending,
        in_flight,
        polled,
        commands,
        cache_before,
        jobs_before,
        cache_after_tick,
        jobs_after_tick,
        requested,
    );
    lemma_resolution_commands(in_flight, polled);
    lemma_apply_distinct(store, commands);
    let n = pending.len() as int;
    let res = resolution_commands(in_flight, polled);
    let f = in_flight[failed].entity;
    let l = in_flight[loaded].entity;
    let kf = choose|k: int| 0 <= k < res.len() && res[k] == AssetCommand::Abandon(f);
    let kl = choose|k: int|
        0 <= k < res.len() && res[k] == AssetCommand::Finish(l, polled[loaded]->Loaded_0);
    assert(commands[n + kf] == res[kf]);
    assert(commands[n + kl] == res[kl]);
    assert(command_entity(commands[n + kf]) == f);
    assert(command_entity(commands[n + kl]) == l);
}

proof fn lemma_all_cached_needs_no_upload(cached: Set<Seq<char>>, names: Seq<Seq<char>>)
    requires
        forall|i: int| 0 <= i < names.len() ==> cached.contains(#[trigger] names[i]),
    ensures
        first_uncached(cached, names).len() == 0,
    decreases names.len(),
{
    if names.len() > 0 {
        let n = names.len() - 1;
        assert forall|i: int| 0 <= i < n implies cached.contains(#[trigger] names.take(n)[i]) by {
            assert(names.take(n)[i] == names[i]);
        }
        lemma_all_cached_needs_no_upload(cached, names.take(n));
    }
}

/// An update uploads each distinct uncached name exactly once: the names at
/// the upload positions are pairwise distinct, none was cached, and every
/// uncached requested name is among them.
pub proof fn lemma_one_upload_per_distinct_name(cached: Set<Seq<char>>, names: Seq<Seq<char>>)
    ensures
        forall|k1: int, k2: int|
            0 <= k1 < k2 < first_uncached(cached, names).len() ==> names[#[trigger] first_uncached(
                cached,
                names,
            )[k1]] != names[#[trigger] first_uncached(cached, names)[k2]],
        forall|k: int|
            0 <= k < first_uncached(cached, names).len() ==> !cached.contains(
                names[#[trigger] first_uncached(cached, names)[k]],
            ),
        forall|j: int|
            0 <= j < names.len() && !cached.contains(#[trigger] names[j]) ==> exists|k: int|
                0 <= k < first_uncached(cached, names).len() && names[#[trigger] first_uncached(
                    cached,
                    names,
                )[k]] == names[j],
{
    let pos = first_uncached(cached, names);
    lemma_first_uncached_positions(cached, names);
    assert forall|k1: int, k2: int| 0 <= k1 < k2 < pos.len() implies names[#[trigger] pos[k1]]
        != names[#[trigger] pos[k2]] by {
        let i1 = pos[k1];
        let i2 = pos[k2];
        assert(i1 < i2);
        assert(names.take(i2)[i1] == names[i1]);
        if names[i1] == names[i2] {
            assert(names.take(i2).contains(names[i2]));
        }
    }
    assert forall|j: int| 0 <= j < names.len() && !cached.contains(#[trigger] names[j]) implies exists|k: int|
        0 <= k < pos.len() && names[#[trigger] pos[k]] == names[j] by {
        lemma_first_uncached_covers(cached, names, j);
    }
}

/// Updating twice with the same requests uploads nothing the second time:
/// after an update every requested name is cached.
pub proof fn lemma_second_update_uploads_nothing(
    before: GpuAssetCache,
    after: GpuAssetCache,
    names: Seq<Seq<char>>,
    uploads: Seq<Seq<UploadedPrimitive>>,
)
    requires
        update_outcome(before, after, names, uploads),
    ensures
        first_uncached(after.cached().dom(), names).len() == 0,
        after.upload_total() == before.upload_total() + first_uncached(
            before.cached().dom(),
            names,
        ).len(),
{
    assert forall|i: int| 0 <= i < names.len() implies after.cached().dom().contains(
        #[trigger] names[i],
    ) by {
        assert(names.to_set().contains(names[i]));
    }
    lemma_all_cached_needs_no_upload(after.cached().dom(), names);
}

/// After a full flush the cache is empty, so an update with the same requests
/// rebuilds it: exactly the requested names are cached again, the first
/// request of each name is uploaded, and each name holds what the backend
/// uploaded for it. Two such rebuilds from the same uploads give caches with
/// the same names whose models hold the same data.
pub proof fn lemma_reload_restores_cache(
    flushed: GpuAssetCache,
    rebuilt: GpuAssetCache,
    other_flushed: GpuAssetCache,
    other_rebuilt: GpuAssetCache,
    names: Seq<Seq<char>>,
    uploads: Seq<Seq<UploadedPrimitive>>,
)
    requires
        flushed.cached() == Map::<Seq<char>, crate::gpu_cache::LoadedGLTFModel>::empty(),
        other_flushed.cached() == Map::<Seq<char>, crate::gpu_cache::LoadedGLTFModel>::empty(),
        update_outcome(flushed, rebuilt, names, uploads),
        update_outcome(other_flushed, other_rebuilt, names, uploads),
    ensures
        rebuilt.cached().dom() == names.to_set(),
        other_rebuilt.cached().dom() == rebuilt.cached().dom(),
        first_uncached(Set::<Seq<char>>::empty(), names).len() == rebuilt.upload_total()
            - flushed.upload_total(),
        forall|k: int|
            0 <= k < first_uncached(Set::<Seq<char>>::empty(), names).len() ==> {
                let name = names[#[trigger] first_uncached(Set::<Seq<char>>::empty(), names)[k]];
                &&& rebuilt.holds_upload(rebuilt.cached()[name], uploads[k])
                &&& other_rebuilt.holds_upload(other_rebuilt.cached()[name], uploads[k])
            },
{
    assert(flushed.cached().dom() =~= Set::<Seq<char>>::empty());
    assert(other_flushed.cached().dom() =~= Set::<Seq<char>>::empty());
    assert(rebuilt.cached().dom() =~= names.to_set());
    assert(other_rebuilt.cached().dom() =~= names.to_set());
}

} // verus!
