//! A model of the asset components that entities carry, and of what a batch
//! of loader commands does to them.
use crate::components::GLTFModel;
use crate::loader::{command_entity, AssetCommand, AssetLoadToken, AssetRequest, InFlightRequest};
use vstd::prelude::*;

verus! {

/// The asset components of one entity: the name it asks for, the token of
/// its job, and its model.
pub struct AssetSlots {
    pub request: Option<Seq<char>>,
    pub token: Option<AssetLoadToken>,
    pub model: Option<GLTFModel>,
}

/// What one command does to the components of its entity.
pub open spec fn command_effect(c: AssetCommand, s: AssetSlots) -> AssetSlots {
    match c {
        AssetCommand::AttachModel(_, m) => AssetSlots { model: Some(m), ..s },
        AssetCommand::AttachToken(_, t) => AssetSlots { token: Some(t), ..s },
        AssetCommand::Finish(_, m) => AssetSlots { token: None, model: Some(m), ..s },
        AssetCommand::Abandon(_) => AssetSlots { token: None, request: None, ..s },
    }
}

/// One command applied to the store; a command for an entity that is gone
/// changes nothing.
pub open spec fn apply_command(store: Map<hecs::Entity, AssetSlots>, c: AssetCommand) -> Map<
    hecs::Entity,
    AssetSlots,
> {
    let e = command_entity(c);
    if store.contains_key(e) {
        store.insert(e, command_effect(c, store[e]))
    } else {
        store
    }
}

/// A batch of commands applied in order.
pub open spec fn apply_commands(store: Map<hecs::Entity, AssetSlots>, cmds: Seq<AssetCommand>) -> Map<
    hecs::Entity,
    AssetSlots,
>
    decreases cmds.len(),
{
    if cmds.len() == 0 {
        store
    } else {
        apply_command(apply_commands(store, cmds.drop_last()), cmds.last())
    }
}

/// No entity holds a token and a model at once, and each token belongs to an
/// entity that still asks for its asset.
pub open spec fn single_resolution(store: Map<hecs::Entity, AssetSlots>) -> bool {
    forall|e: hecs::Entity|
        #[trigger] store.contains_key(e) ==> {
            &&& !(store[e].token is Some && store[e].model is Some)
            &&& (store[e].token is Some ==> store[e].request is Some)
        }
}

/// No two commands of the batch are about the same entity.
pub open spec fn entities_distinct(cmds: Seq<AssetCommand>) -> bool {
    forall|i: int, j: int|
        0 <= i < j < cmds.len() ==> command_entity(#[trigger] cmds[i]) != command_entity(
            #[trigger] cmds[j],
        )
}

/// The two lists handed to a tick are what a scan of `store` finds: pending
/// requests are of distinct entities that ask for that name and hold neither
/// token nor model; waiting entities are distinct and hold that token and ask
/// for that name.
pub open spec fn scan_of(
    store: Map<hecs::Entity, AssetSlots>,
    pending: Seq<AssetRequest>,
    in_flight: Seq<InFlightRequest>,
) -> bool {
    &&& forall|i: int|
        0 <= i < pending.len() ==> {
            let e = #[trigger] pending[i].entity;
            &&& store.contains_key(e)
            &&& store[e].request == Some(pending[i].asset.name@)
            &&& store[e].token is None
            &&& store[e].model is None
        }
    &&& forall|i: int, j: int|
        0 <= i < j < pending.len() ==> #[trigger] pending[i].entity != #[trigger] pending[j].entity
    &&& forall|i: int|
        0 <= i < in_flight.len() ==> {
            let e = #[trigger] in_flight[i].entity;
            &&& store.contains_key(e)
            &&& store[e].token == Some(in_flight[i].token)
            &&& store[e].request == Some(in_flight[i].asset.name@)
        }
    &&& forall|i: int, j: int|
        0 <= i < j < in_flight.len() ==> #[trigger] in_flight[i].entity != #[trigger] in_flight[j].entity
}

/// With distinct entities, each entity ends with the effect of its own
/// command on what it held, or unchanged if no command names it.
pub proof fn lemma_apply_distinct(store: Map<hecs::Entity, AssetSlots>, cmds: Seq<AssetCommand>)
    requires
        entities_distinct(cmds),
    ensures
        apply_commands(store, cmds).dom() == store.dom(),
        forall|k: int|
            0 <= k < cmds.len() && store.contains_key(command_entity(#[trigger] cmds[k]))
                ==> apply_commands(store, cmds)[command_entity(cmds[k])] == command_effect(
                cmds[k],
                store[command_entity(cmds[k])],
            ),
        forall|e: hecs::Entity|
            store.contains_key(e) && (forall|k: int|
                0 <= k < cmds.len() ==> command_entity(#[trigger] cmds[k]) != e)
                ==> #[trigger] apply_commands(store, cmds)[e] == store[e],
    decreases cmds.len(),
{
    if cmds.len() > 0 {
        let init = cmds.drop_last();
        assert(entities_distinct(init)) by {
            assert forall|i: int, j: int| 0 <= i < j < init.len() implies command_entity(
                #[trigger] init[i],
            ) != command_entity(#[trigger] init[j]) by {
                assert(init[i] == cmds[i] && init[j] == cmds[j]);
            }
        }
        lemma_apply_distinct(store, init);
        let last = cmds.last();
        let n = cmds.len() - 1;
        assert forall|k: int| 0 <= k < init.len() implies command_entity(#[trigger] init[k])
            != command_entity(last) by {
            assert(init[k] == cmds[k]);
        }
        assert(apply_commands(store, cmds).dom() =~= store.dom());
        assert forall|k: int|
            0 <= k < cmds.len() && store.contains_key(command_entity(#[trigger] cmds[k])) implies
            apply_commands(store, cmds)[command_entity(cmds[k])] == command_effect(
                cmds[k],
                store[command_entity(cmds[k])],
            ) by {
            if k < n {
                assert(init[k] == cmds[k]);
            } else {
                let e = command_entity(last);
                assert forall|k2: int| 0 <= k2 < init.len() implies command_entity(
                    #[trigger] init[k2],
                ) != e by {
                    assert(init[k2] == cmds[k2]);
                }
            }
        }
        assert forall|e: hecs::Entity|
            store.contains_key(e) && (forall|k: int|
                0 <= k < cmds.len() ==> command_entity(#[trigger] cmds[k]) != e) implies
            #[trigger] apply_commands(store, cmds)[e] == store[e] by {
            assert forall|k: int| 0 <= k < init.len() implies command_entity(#[trigger] init[k])
                != e by {
                assert(init[k] == cmds[k]);
            }
            assert(command_entity(cmds[n]) != e);
        }
    }
}

} // verus!
