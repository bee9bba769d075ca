//! The per-tick orchestration of asset loading: cache hits are attached at
//! once, misses start a decode job, and finished jobs are collected. Every
//! change to the entity store comes back as a batch of commands, applied by
//! the caller after its scan of the store is over.
use crate::asset_cache::AssetCache;
use crate::components::{GLTFAsset, GLTFModel};
use crate::job_table::{
    insert_job, job_at, job_total, live_jobs, new_job_arena, remove_job, AssetLoadJob, AssetLoadState,
    AssetResult,
};
use vstd::prelude::*;

verus! {

/// Marks an entity whose asset is being decoded; names the job.
#[derive(Clone, Copy, Debug, PartialEq, Eq, Structural)]
pub struct AssetLoadToken {
    pub job: u64,
}

/// An entity that asks for an asset and has neither the model nor a token.
pub struct AssetRequest {
    pub entity: hecs::Entity,
    pub asset: GLTFAsset,
}

/// An entity that waits on a decode job.
pub struct InFlightRequest {
    pub entity: hecs::Entity,
    pub token: AssetLoadToken,
    pub asset: GLTFAsset,
}

/// One change to the entity store.
pub enum AssetCommand {
    /// Attach a model that the cache already held.
    AttachModel(hecs::Entity, GLTFModel),
    /// Attach the token of a job just started.
    AttachToken(hecs::Entity, AssetLoadToken),
    /// Remove the token and attach the model its job produced.
    Finish(hecs::Entity, GLTFModel),
    /// Remove the token and the request: the job failed and is not retried.
    Abandon(hecs::Entity),
}

/// A decode job to run on a worker: read and decode `name`, then send the
/// result through `sender`.
pub struct LoadRequest {
    pub name: String,
    pub sender: std::sync::mpsc::SyncSender<AssetResult>,
}

/// What one tick decided: the store changes, in order, and the jobs to start.
pub struct TickOutput {
    pub commands: Vec<AssetCommand>,
    pub requests: Vec<LoadRequest>,
}

/// The entity a command is about.
pub open spec fn command_entity(c: AssetCommand) -> hecs::Entity {
    match c {
        AssetCommand::AttachModel(e, _) => e,
        AssetCommand::AttachToken(e, _) => e,
        AssetCommand::Finish(e, _) => e,
        AssetCommand::Abandon(e) => e,
    }
}

/// The commands that collecting the jobs of `in_flight` gives, where
/// `polled[i]` is what the channel of the `i`-th job showed: nothing for a
/// job still running, `Abandon` for a failure, `Finish` for a model.
pub open spec fn resolution_commands(
    in_flight: Seq<InFlightRequest>,
    polled: Seq<AssetLoadState>,
) -> Seq<AssetCommand>
    decreases in_flight.len(),
{
    if in_flight.len() == 0 {
        Seq::empty()
    } else {
        let n = in_flight.len() - 1;
        let rest = resolution_commands(in_flight.take(n), polled.take(n));
        match polled[n] {
            AssetLoadState::Loading => rest,
            AssetLoadState::Failed(_) => rest.push(AssetCommand::Abandon(in_flight[n].entity)),
            AssetLoadState::Loaded(m) => rest.push(AssetCommand::Finish(in_flight[n].entity, m)),
        }
    }
}

/// The cache after the models of `in_flight` that `polled` shows as loaded
/// were stored, each under its request's name unless that name was taken.
pub open spec fn cache_after(
    cache: Map<Seq<char>, GLTFModel>,
    in_flight: Seq<InFlightRequest>,
    polled: Seq<AssetLoadState>,
) -> Map<Seq<char>, GLTFModel>
    decreases in_flight.len(),
{
    if in_flight.len() == 0 {
        cache
    } else {
        let n = in_flight.len() - 1;
        let c = cache_after(cache, in_flight.take(n), polled.take(n));
        let name = in_flight[n].asset.name@;
        match polled[n] {
            AssetLoadState::Loaded(m) => if c.contains_key(name) {
                c
            } else {
                c.insert(name, m)
            },
            _ => c,
        }
    }
}

/// The names of the requests that the cache cannot serve, in order: one
/// decode job each.
pub open spec fn missing_names(cache: Map<Seq<char>, GLTFModel>, pending: Seq<AssetRequest>) -> Seq<
    Seq<char>,
>
    decreases pending.len(),
{
    if pending.len() == 0 {
        Seq::empty()
    } else {
        let n = pending.len() - 1;
        let rest = missing_names(cache, pending.take(n));
        if cache.contains_key(pending[n].asset.name@) {
            rest
        } else {
            rest.push(pending[n].asset.name@)
        }
    }
}

/// The jobs that `polled` shows as over, failed or loaded.
pub open spec fn finished_jobs(in_flight: Seq<InFlightRequest>, polled: Seq<AssetLoadState>) -> Set<
    u64,
> {
    Set::new(
        |t: u64|
            exists|i: int|
                0 <= i < in_flight.len() && !(polled[i] is Loading) && in_flight[i].token.job == t,
    )
}

/// The jobs that the discovery commands started.
pub open spec fn started_jobs(commands: Seq<AssetCommand>) -> Set<u64> {
    Set::new(
        |t: u64|
            exists|i: int|
                0 <= i < commands.len() && (commands[i] is AttachToken) && commands[i]->AttachToken_1.job
                    == t,
    )
}

/// The command that discovery owes one request: the cached model, or the
/// token of a new job, distinct from each job kept from before.
pub open spec fn discovery_command(
    cache: Map<Seq<char>, GLTFModel>,
    jobs_kept: Set<u64>,
    request: AssetRequest,
    c: AssetCommand,
) -> bool {
    if cache.contains_key(request.asset.name@) {
        c == AssetCommand::AttachModel(request.entity, cache[request.asset.name@])
    } else {
        &&& c is AttachToken
        &&& c->AttachToken_0 == request.entity
        &&& !jobs_kept.contains(c->AttachToken_1.job)
    }
}

/// What a tick owes, given what polling the jobs of `in_flight` showed:
/// first one discovery command per pending request, then the resolution
/// commands; one job per cache miss; the cache extended by the loaded models;
/// finished jobs dropped from the table and new ones added.
pub open spec fn tick_outcome(
    cache_before: Map<Seq<char>, GLTFModel>,
    jobs_before: Set<u64>,
    cache_after_tick: Map<Seq<char>, GLTFModel>,
    jobs_after_tick: Set<u64>,
    pending: Seq<AssetRequest>,
    in_flight: Seq<InFlightRequest>,
    polled: Seq<AssetLoadState>,
    commands: Seq<AssetCommand>,
    requested: Seq<Seq<char>>,
) -> bool {
    let n = pending.len() as int;
    let kept = jobs_before.difference(finished_jobs(in_flight, polled));
    &&& commands.len() >= n
    &&& forall|i: int|
        0 <= i < n ==> discovery_command(cache_before, kept, pending[i], #[trigger] commands[i])
    &&& forall|i: int, j: int|
        0 <= i < j < n && (commands[i] is AttachToken) && (commands[j] is AttachToken)
            ==> #[trigger] commands[i]->AttachToken_1 != #[trigger] commands[j]->AttachToken_1
    &&& commands.subrange(n, commands.len() as int) == resolution_commands(in_flight, polled)
    &&& requested == missing_names(cache_before, pending)
    &&& cache_after_tick == cache_after(cache_before, in_flight, polled)
    &&& jobs_after_tick == kept.union(started_jobs(commands.take(n)))
}

/// The names of a batch of load requests.
pub open spec fn request_names(requests: Seq<LoadRequest>) -> Seq<Seq<char>> {
    requests.map_values(|r: LoadRequest| r.name@)
}

/// The asset loading orchestrator: the CPU-side cache and the jobs in flight.
#[derive(Debug)]
pub struct AssetLoader {
    jobs: thunderdome::Arena<AssetLoadJob>,
    cache: AssetCache,
}

impl AssetLoader {
    /// The models cached so far, by name.
    pub closed spec fn cached(&self) -> Map<Seq<char>, GLTFModel> {
        self.cache@
    }

    /// The handles of the jobs in flight.
    pub closed spec fn jobs(&self) -> Set<u64> {
        live_jobs(self.jobs)
    }

    /// The cache holds one entry per name and the job table is finite.
    pub closed spec fn wf(&self) -> bool {
        &&& self.cache.wf()
        &&& live_jobs(self.jobs).finite()
    }

    /// A loader with an empty cache and no jobs.
    pub fn new() -> (r: Self)
        ensures
            r.wf(),
            r.cached() == Map::<Seq<char>, GLTFModel>::empty(),
            r.jobs() == Set::<u64>::empty(),
    {
        AssetLoader { jobs: new_job_arena(), cache: AssetCache::new() }
    }

    /// Number of jobs in flight.
    pub fn job_count(&self) -> (r: usize)
        requires
            self.wf(),
        ensures
            r == self.jobs().len(),
    {
        job_total(&self.jobs)
    }

    /// The model cached under `name`, if any.
    pub fn cached_model(&self, name: &String) -> (r: Option<GLTFModel>)
        requires
            self.wf(),
        ensures
            r == (if self.cached().contains_key(name@) {
                Some(self.cached()[name@])
            } else {
                None
            }),
    {
        self.cache.get(name)
    }

    /// Looks at the job behind `token` without blocking. A token whose job is
    /// no longer in the table, because its result was collected, reads as a
    /// failure.
    pub fn check(&self, token: &AssetLoadToken) -> (r: AssetLoadState)
        ensures
            !self.jobs().contains(token.job) ==> r is Failed,
    {
        match job_at(&self.jobs, token.job) {
            Some(job) => job.check(),
            None => AssetLoadState::Failed(
                String::from_str("no job in flight for this token: its result was already collected"),
            ),
        }
    }

    /// Polls the job of each waiting entity once, in order.
    pub fn poll_all(&self, in_flight: &Vec<InFlightRequest>) -> (r: Vec<AssetLoadState>)
        ensures
            r@.len() == in_flight@.len(),
            forall|i: int|
                0 <= i < in_flight@.len() && !self.jobs().contains(#[trigger] in_flight@[i].token.job)
                    ==> r@[i] is Failed,
    {
        let mut polled: Vec<AssetLoadState> = Vec::new();
        let mut i: usize = 0;
        while i < in_flight.len()
            invariant
                i <= in_flight@.len(),
                polled@.len() == i,
                forall|k: int|
                    0 <= k < i && !self.jobs().contains(#[trigger] in_flight@[k].token.job)
                        ==> polled@[k] is Failed,
            decreases in_flight@.len() - i,
        {
            let state = self.check(&in_flight[i].token);
            polled.push(state);
            i = i + 1;
        }
        polled
    }

    /// Starts a job for `name`: a one-shot channel whose receiving end enters
    /// the job table under a new handle. The sending end goes out with the
    /// name, for a worker to decode the asset and send the result.
    fn load(&mut self, name: &String) -> (r: (AssetLoadToken, LoadRequest))
        requires
            old(self).wf(),
            old(self).jobs().len() < u32::MAX,
        ensures
            final(self).wf(),
            final(self).cached() == old(self).cached(),
            !old(self).jobs().contains(r.0.job),
            final(self).jobs() == old(self).jobs().insert(r.0.job),
            r.1.name@ == name@,
    {
        let (sender, receiver) = std::sync::mpsc::sync_channel(1);
        let job = insert_job(&mut self.jobs, AssetLoadJob { receiver });
        (AssetLoadToken { job }, LoadRequest { name: name.clone(), sender })
    }

    /// One tick, given what polling each job of `in_flight` showed
    /// (`polled[i]` for the `i`-th): finished jobs leave the table; each
    /// pending request gets the cached model or a new job, judged against the
    /// cache as it was when the tick began; then each finished job gives
    /// `Finish` or `Abandon`, and its model enters the cache if the name is
    /// free. Two requests for one missing name start two jobs.
    pub fn apply_tick(
        &mut self,
        pending: &Vec<AssetRequest>,
        in_flight: &Vec<InFlightRequest>,
        polled: &Vec<AssetLoadState>,
    ) -> (out: TickOutput)
        requires
            old(self).wf(),
            polled@.len() == in_flight@.len(),
            old(self).jobs().len() + pending@.len() < u32::MAX,
        ensures
            final(self).wf(),
            tick_outcome(
                old(self).cached(),
                old(self).jobs(),
                final(self).cached(),
                final(self).jobs(),
                pending@,
                in_flight@,
                polled@,
                out.commands@,
                request_names(out.requests@),
            ),
    {
        let ghost jobs0 = self.jobs();
        let ghost cache0 = self.cached();
        let ghost finished = finished_jobs(in_flight@, polled@);

        // Collected jobs leave the table first.
        let mut j: usize = 0;
        while j < in_flight.len()
            invariant
                self.wf(),
                self.cached() == cache0,
                j <= in_flight@.len(),
                polled@.len() == in_flight@.len(),
                jobs0.finite(),
                self.jobs() == jobs0.difference(
                    finished_jobs(in_flight@.take(j as int), polled@.take(j as int)),
                ),
            decreases in_flight@.len() - j,
        {
            let ghost before = self.jobs();
            match &polled[j] {
                AssetLoadState::Loading => {},
                _ => {
                    remove_job(&mut self.jobs, in_flight[j].token.job);
                },
            }
            proof {
                let f0 = finished_jobs(in_flight@.take(j as int), polled@.take(j as int));
                let f1 = finished_jobs(in_flight@.take(j + 1), polled@.take(j + 1));
                assert forall|t: u64| f1.contains(t) <==> (f0.contains(t) || (!(polled@[j as int] is Loading)
                    && in_flight@[j as int].token.job == t)) by {
                    if f1.contains(t) {
                        let k = choose|k: int|
                            0 <= k < j + 1 && !(polled@.take(j + 1)[k] is Loading)
                                && #[trigger] in_flight@.take(j + 1)[k].token.job == t;
                        if k < j {
                            assert(in_flight@.take(j as int)[k] == in_flight@[k]);
                            assert(polled@.take(j as int)[k] == polled@[k]);
                        }
                    }
                    if f0.contains(t) {
                        let k = choose|k: int|
                            0 <= k < j && !(polled@.take(j as int)[k] is Loading)
                                && #[trigger] in_flight@.take(j as int)[k].token.job == t;
                        assert(in_flight@.take(j + 1)[k] == in_flight@[k]);
                        assert(polled@.take(j + 1)[k] == polled@[k]);
                    }
                    if !(polled@[j as int] is Loading) && in_flight@[j as int].token.job == t {
                        assert(in_flight@.take(j + 1)[j as int] == in_flight@[j as int]);
                        assert(polled@.take(j + 1)[j as int] == polled@[j as int]);
                    }
                }
                assert(self.jobs() =~= jobs0.difference(f1));
            }
            j = j + 1;
        }
        proof {
            assert(in_flight@.take(in_flight@.len() as int) =~= in_flight@);
            assert(polled@.take(polled@.len() as int) =~= polled@);
            vstd::set_lib::lemma_len_subset(self.jobs(), jobs0);
        }
        let ghost kept = self.jobs();

        // Discovery, against the cache as the tick found it.
        let mut commands: Vec<AssetCommand> = Vec::new();
        let mut requests: Vec<LoadRequest> = Vec::new();
        let mut i: usize = 0;
        while i < pending.len()
            invariant
                self.wf(),
                self.cached() == cache0,
                i <= pending@.len(),
                commands@.len() == i,
                kept.finite(),
                kept.len() <= jobs0.len(),
                jobs0.len() + pending@.len() < u32::MAX,
                kept == jobs0.difference(finished),
                self.jobs() == kept.union(started_jobs(commands@)),
                self.jobs().len() <= kept.len() + i,
                forall|k: int|
                    0 <= k < i ==> discovery_command(cache0, kept, pending@[k], #[trigger] commands@[k]),
                forall|k: int|
                    0 <= k < i && (commands@[k] is AttachToken) ==> self.jobs().contains(
                        #[trigger] commands@[k]->AttachToken_1.job,
                    ),
                forall|a: int, b: int|
                    0 <= a < b < i && (commands@[a] is AttachToken) && (commands@[b] is AttachToken)
                        ==> #[trigger] commands@[a]->AttachToken_1 != #[trigger] commands@[b]->AttachToken_1,
                request_names(requests@) == missing_names(cache0, pending@.take(i as int)),
            decreases pending@.len() - i,
        {
            let request = &pending[i];
            let ghost cmds_before = commands@;
            let ghost reqs_before = requests@;
            match self.cache.get(&request.asset.name) {
                Some(model) => {
                    commands.push(AssetCommand::AttachModel(request.entity, model));
                    proof {
                        assert forall|t: u64| started_jobs(commands@).contains(t) == started_jobs(
                            cmds_before,
                        ).contains(t) by {
                            if started_jobs(commands@).contains(t) {
                                let k = choose|k: int|
                                    0 <= k < commands@.len() && (commands@[k] is AttachToken)
                                        && #[trigger] commands@[k]->AttachToken_1.job == t;
                                assert(commands@[k] == cmds_before[k]);
                            }
                            if started_jobs(cmds_before).contains(t) {
                                let k = choose|k: int|
                                    0 <= k < cmds_before.len() && (cmds_before[k] is AttachToken)
                                        && #[trigger] cmds_before[k]->AttachToken_1.job == t;
                                assert(commands@[k] == cmds_before[k]);
                            }
                        }
                        assert(started_jobs(commands@) =~= started_jobs(cmds_before));
                    }
                },
                None => {
                    let (token, job) = self.load(&request.asset.name);
                    let ghost handle = token.job;
                    commands.push(AssetCommand::AttachToken(request.entity, token));
                    requests.push(job);
                    proof {
                        assert forall|t: u64| started_jobs(commands@).contains(t) == (started_jobs(
                            cmds_before,
                        ).contains(t) || t == handle) by {
                            if started_jobs(commands@).contains(t) {
                                let k = choose|k: int|
                                    0 <= k < commands@.len() && (commands@[k] is AttachToken)
                                        && #[trigger] commands@[k]->AttachToken_1.job == t;
                                if k < i {
                                    assert(commands@[k] == cmds_before[k]);
                                }
                            }
                            if started_jobs(cmds_before).contains(t) {
                                let k = choose|k: int|
                                    0 <= k < cmds_before.len() && (cmds_before[k] is AttachToken)
                                        && #[trigger] cmds_before[k]->AttachToken_1.job == t;
                                assert(commands@[k] == cmds_before[k]);
                            }
                            if t == handle {
                                assert(commands@[i as int] is AttachToken);
                            }
                        }
                        assert(started_jobs(commands@) =~= started_jobs(cmds_before).insert(handle));
                        assert(request_names(requests@) =~= request_names(reqs_before).push(
                            request.asset.name@,
                        ));
                    }
                },
            }
            proof {
                assert(pending@.take(i + 1).take(i as int) =~= pending@.take(i as int));
                assert(pending@.take(i + 1)[i as int] == pending@[i as int]);
                assert forall|k: int| 0 <= k < i implies commands@[k] == cmds_before[k] by {}
            }
            i = i + 1;
        }
        proof {
            assert(pending@.take(pending@.len() as int) =~= pending@);
        }
        let ghost discovered = commands@;

        // Resolution of the jobs that were collected.
        let mut j: usize = 0;
        while j < in_flight.len()
            invariant
                self.wf(),
                self.jobs() == kept.union(started_jobs(discovered)),
                j <= in_flight@.len(),
                polled@.len() == in_flight@.len(),
                commands@ == discovered + resolution_commands(
                    in_flight@.take(j as int),
                    polled@.take(j as int),
                ),
                self.cached() == cache_after(cache0, in_flight@.take(j as int), polled@.take(j as int)),
            decreases in_flight@.len() - j,
        {
            proof {
                assert(in_flight@.take(j + 1).take(j as int) =~= in_flight@.take(j as int));
                assert(polled@.take(j + 1).take(j as int) =~= polled@.take(j as int));
                assert(in_flight@.take(j + 1)[j as int] == in_flight@[j as int]);
                assert(polled@.take(j + 1)[j as int] == polled@[j as int]);
            }
            match &polled[j] {
                AssetLoadState::Loading => {},
                AssetLoadState::Failed(_) => {
                    commands.push(AssetCommand::Abandon(in_flight[j].entity));
                },
                AssetLoadState::Loaded(model) => {
                    self.cache.insert(in_flight[j].asset.name.clone(), model.share());
                    commands.push(AssetCommand::Finish(in_flight[j].entity, model.share()));
                },
            }
            j = j + 1;
        }
        proof {
            assert(in_flight@.take(in_flight@.len() as int) =~= in_flight@);
            assert(polled@.take(polled@.len() as int) =~= polled@);
            let n = pending@.len() as int;
            assert(commands@.subrange(n, commands@.len() as int) =~= resolution_commands(
                in_flight@,
                polled@,
            ));
            assert(commands@.take(n) =~= discovered);
            assert forall|k: int| 0 <= k < n implies #[trigger] commands@[k] == discovered[k] by {}
        }
        TickOutput { commands, requests }
    }


    /// One tick of the orchestrator: polls every job of `in_flight` without
    /// blocking, then acts as `apply_tick` does on what it saw. A job no
    /// longer in the table reads as failed.
    pub fn load_assets(
        &mut self,
        pending: &Vec<AssetRequest>,
        in_flight: &Vec<InFlightRequest>,
    ) -> (out: TickOutput)
        requires
            old(self).wf(),
            old(self).jobs().len() + pending@.len() < u32::MAX,
        ensures
            final(self).wf(),
            exists|polled: Seq<AssetLoadState>|
                {
                    &&& polled.len() == in_flight@.len()
                    &&& forall|i: int|
                        0 <= i < in_flight@.len() && !old(self).jobs().contains(
                            #[trigger] in_flight@[i].token.job,
                        ) ==> polled[i] is Failed
                    &&& tick_outcome(
                        old(self).cached(),
                        old(self).jobs(),
                        final(self).cached(),
                        final(self).jobs(),
                        pending@,
                        in_flight@,
                        polled,
                        out.commands@,
                        request_names(out.requests@),
                    )
                },
    {
        let polled = self.poll_all(in_flight);
        self.apply_tick(pending, in_flight, &polled)
    }

}

} // verus!
