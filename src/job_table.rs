//! The table of decode jobs in flight, addressed by generation-checked
//! handles so that a stale handle never reaches a newer job.
use crate::components::GLTFModel;
use vstd::prelude::*;

verus! {

/// What a decode job sends back: the model, or why it could not be made.
pub type AssetResult = Result<GLTFModel, anyhow::Error>;

/// One job in flight: the receiving end of its one-shot result channel.
#[derive(Debug)]
pub struct AssetLoadJob {
    pub(crate) receiver: std::sync::mpsc::Receiver<AssetResult>,
}

/// The handles, as `Index::to_bits` writes them, of the entries that the
/// arena holds.
pub uninterp spec fn live_jobs(a: thunderdome::Arena<AssetLoadJob>) -> Set<u64>;

/// Relies on `Arena::new`: an arena with no entries.
#[verifier::external_body]
pub(crate) fn new_job_arena() -> (r: thunderdome::Arena<AssetLoadJob>)
    ensures
        live_jobs(r) == Set::<u64>::empty(),
{
    thunderdome::Arena::new()
}

/// Relies on `Arena::insert` and `Index::to_bits`: the job takes a slot that
/// held no entry, so its handle differs from every live one, and the arena
/// then holds one entry more. `insert` panics once `u32::MAX` entries are
/// live, hence the bound.
#[verifier::external_body]
pub(crate) fn insert_job(a: &mut thunderdome::Arena<AssetLoadJob>, job: AssetLoadJob) -> (r: u64)
    requires
        live_jobs(*old(a)).finite(),
        live_jobs(*old(a)).len() < u32::MAX,
    ensures
        !live_jobs(*old(a)).contains(r),
        live_jobs(*final(a)) == live_jobs(*old(a)).insert(r),
{
    a.insert(job).to_bits()
}

/// Relies on `Index::from_bits` and `Arena::get`: a live handle finds its
/// job; any other value finds nothing.
#[verifier::external_body]
pub(crate) fn job_at(a: &thunderdome::Arena<AssetLoadJob>, handle: u64) -> (r: Option<&AssetLoadJob>)
    ensures
        r.is_some() == live_jobs(*a).contains(handle),
{
    match thunderdome::Index::from_bits(handle) {
        Some(index) => a.get(index),
        None => None,
    }
}

/// Relies on `Arena::len`: the number of entries the arena holds.
#[verifier::external_body]
pub(crate) fn job_total(a: &thunderdome::Arena<AssetLoadJob>) -> (r: usize)
    ensures
        r == live_jobs(*a).len(),
{
    a.len()
}

/// Relies on `Index::from_bits` and `Arena::remove`: the entry under a live
/// handle leaves the arena; for any other value the arena is unchanged.
#[verifier::external_body]
pub(crate) fn remove_job(a: &mut thunderdome::Arena<AssetLoadJob>, handle: u64)
    ensures
        live_jobs(*final(a)) == live_jobs(*old(a)).remove(handle),
{
    if let Some(index) = thunderdome::Index::from_bits(handle) {
        a.remove(index);
    }
}

/// Relies on anyhow's `Debug` output: a description of a decode failure.
#[verifier::external_body]
pub(crate) fn describe_error(e: &anyhow::Error) -> String {
    format!("{e:?}")
}

/// What a non-blocking receive on a job's channel found.
pub enum ChannelRead {
    /// The job's result.
    Value(AssetResult),
    /// Nothing was sent yet.
    Empty,
    /// The sending side is gone and nothing is left to take.
    Disconnected,
}

/// Relies on `Receiver::try_recv`, which never blocks. What it finds depends
/// on how far the decoding thread got, so nothing about it is stated.
#[verifier::external_body]
fn try_receive(rx: &std::sync::mpsc::Receiver<AssetResult>) -> ChannelRead {
    match rx.try_recv() {
        Ok(value) => ChannelRead::Value(value),
        Err(std::sync::mpsc::TryRecvError::Empty) => ChannelRead::Empty,
        Err(std::sync::mpsc::TryRecvError::Disconnected) => ChannelRead::Disconnected,
    }
}

/// What one look at a job's channel found.
pub enum AssetLoadState {
    /// The job has not finished.
    Loading,
    /// The job failed, or its result was already taken.
    Failed(String),
    /// The job produced this model.
    Loaded(GLTFModel),
}

impl AssetLoadState {
    /// Reads one non-blocking receive: an empty channel is a job still
    /// running; a closed one is a result already taken or lost, which counts
    /// as a failure.
    pub fn from_received(received: ChannelRead) -> (r: Self)
        ensures
            match received {
                ChannelRead::Value(Ok(m)) => r == AssetLoadState::Loaded(m),
                ChannelRead::Value(Err(_)) => r is Failed,
                ChannelRead::Empty => r is Loading,
                ChannelRead::Disconnected => r is Failed,
            },
    {
        match received {
            ChannelRead::Value(Ok(model)) => AssetLoadState::Loaded(model),
            ChannelRead::Value(Err(e)) => AssetLoadState::Failed(describe_error(&e)),
            ChannelRead::Empty => AssetLoadState::Loading,
            ChannelRead::Disconnected => AssetLoadState::Failed(
                String::from_str("the job's channel is closed: its result was already taken"),
            ),
        }
    }
}

impl AssetLoadJob {
    /// Looks at the job's channel without blocking.
    pub fn check(&self) -> (r: AssetLoadState) {
        AssetLoadState::from_received(try_receive(&self.receiver))
    }
}

} // verus!
