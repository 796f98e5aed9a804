//! Training-run hyperparameters and the orchestration of a run: the
//! deterministic per-epoch shuffle, the partition of the shuffled order into
//! batches, and the full training plan an engine-driving caller executes.

use vstd::prelude::*;
use crate::artifact::spec_encode_config;
use crate::artifact::encode_config;
use crate::model::Cifar10ModelConfig;
use vstd::pervasive::VecAdditionalExecFns;

verus! {

/// Default epoch count.
pub const DEFAULT_NUM_EPOCHS: usize = 10;

/// Default batch size.
pub const DEFAULT_BATCH_SIZE: usize = 64;

/// Default collation worker count.
pub const DEFAULT_NUM_WORKERS: usize = 4;

/// Default random seed.
pub const DEFAULT_SEED: u64 = 42;

/// Default learning rate, in millionths: 100 is 1.0e-4.
pub const DEFAULT_LEARNING_RATE_MICROS: u64 = 100;

/// The optimizer the engine is asked to run, with its default sizing.
#[derive(Clone, Copy, Debug, PartialEq, Eq, Structural)]
pub enum OptimizerConfig {
    Adam,
}

/// The hyperparameter record of one training run. Immutable once built;
/// serialized at training start and read back at inference start.
///
/// The learning rate is carried in millionths so the record holds exact
/// integers; the engine divides by one million when it applies it.
#[derive(Clone, Copy, Debug, PartialEq, Eq, Structural)]
pub struct TrainingConfig {
    pub model: Cifar10ModelConfig,
    pub optimizer: OptimizerConfig,
    pub num_epochs: usize,
    pub batch_size: usize,
    pub num_workers: usize,
    pub seed: u64,
    pub learning_rate_micros: u64,
}

impl TrainingConfig {
    /// A configuration with the given model and optimizer and the default
    /// epoch count, batch size, worker count, seed and learning rate.
    pub fn new(model: Cifar10ModelConfig, optimizer: OptimizerConfig) -> (r: Self)
        ensures
            r == (TrainingConfig {
                model,
                optimizer,
                num_epochs: DEFAULT_NUM_EPOCHS,
                batch_size: DEFAULT_BATCH_SIZE,
                num_workers: DEFAULT_NUM_WORKERS,
                seed: DEFAULT_SEED,
                learning_rate_micros: DEFAULT_LEARNING_RATE_MICROS,
            }),
    {
        TrainingConfig {
            model,
            optimizer,
            num_epochs: DEFAULT_NUM_EPOCHS,
            batch_size: DEFAULT_BATCH_SIZE,
            num_workers: DEFAULT_NUM_WORKERS,
            seed: DEFAULT_SEED,
            learning_rate_micros: DEFAULT_LEARNING_RATE_MICROS,
        }
    }
}

/// The next state of the fixed 64-bit linear congruential generator that
/// drives shuffling.
pub open spec fn spec_next_rand(s: u64) -> u64 {
    ((s as int * 6364136223846793005 + 1442695040888963407) % 0x10000000000000000) as u64
}

/// Advances the shuffle generator.
fn next_rand(s: u64) -> (r: u64)
    ensures
        r == spec_next_rand(s),
{
    proof {
        assert((s as int) * 6364136223846793005 <= (u64::MAX as int) * 6364136223846793005) by (
        nonlinear_arith)
            requires
                0 <= s <= u64::MAX,
        ;
    }
    let wide: u128 = (s as u128) * 6364136223846793005u128 + 1442695040888963407u128;
    (wide % 0x10000000000000000u128) as u64
}

/// The generator state that seeds epoch `epoch` of a run seeded with
/// `seed`: the epoch ordering is re-derived from the run seed each epoch.
pub open spec fn spec_epoch_state(seed: u64, epoch: u64) -> u64 {
    spec_next_rand(seed ^ epoch)
}

/// The identity index order over `n` records.
pub open spec fn spec_identity_indices(n: nat) -> Seq<usize> {
    Seq::new(n, |i: int| i as usize)
}

/// The rest of a Fisher-Yates shuffle: positions `k` down to `1` each swap
/// with a generator-chosen position at or below them.
pub open spec fn spec_shuffle_from(v: Seq<usize>, state: u64, k: int) -> Seq<usize>
    decreases k,
{
    if k <= 0 {
        v
    } else {
        let r = spec_next_rand(state);
        let j = r as int % (k + 1);
        spec_shuffle_from(v.update(k, v[j]).update(j, v[k]), r, k - 1)
    }
}

/// The order in which epoch `epoch` of a run seeded with `seed` visits `n`
/// records: a deterministic function of seed, epoch and size alone.
pub open spec fn spec_shuffled_indices(seed: u64, epoch: u64, n: nat) -> Seq<usize> {
    spec_shuffle_from(spec_identity_indices(n), spec_epoch_state(seed, epoch), n as int - 1)
}

/// Swapping two positions leaves a sequence's multiset of values unchanged.
proof fn lemma_swap_multiset(v: Seq<usize>, k: int, j: int)
    requires
        0 <= k < v.len(),
        0 <= j < v.len(),
    ensures
        v.update(k, v[j]).update(j, v[k]).to_multiset() == v.to_multiset(),
{
    broadcast use vstd::seq_lib::group_to_multiset_ensures;

    let v1 = v.update(k, v[j]);
    vstd::seq_lib::to_multiset_update(v, k, v[j]);
    vstd::seq_lib::to_multiset_update(v1, j, v[k]);
    assert(v.to_multiset().contains(v[k]));
    assert(v.to_multiset().insert(v[j]).contains(v[k]));
    assert(v1.to_multiset().contains(v1[j]));
    assert(v1.update(j, v[k]).to_multiset() =~= v.to_multiset());
}

/// A shuffle's result holds exactly the values the input held.
proof fn lemma_shuffle_from_multiset(v: Seq<usize>, state: u64, k: int)
    requires
        k < v.len(),
    ensures
        spec_shuffle_from(v, state, k).to_multiset() == v.to_multiset(),
        spec_shuffle_from(v, state, k).len() == v.len(),
    decreases k,
{
    if k > 0 {
        let r = spec_next_rand(state);
        let j = r as int % (k + 1);
        assert(0 <= j <= k);
        lemma_swap_multiset(v, k, j);
        lemma_shuffle_from_multiset(v.update(k, v[j]).update(j, v[k]), r, k - 1);
    }
}

/// The deterministic per-epoch shuffle: a permutation of `0 .. n`, and a
/// pure function of seed, epoch and size, so identical runs draw identical
/// orders.
pub fn shuffled_indices(seed: u64, epoch: u64, n: usize) -> (r: Vec<usize>)
    ensures
        r@ == spec_shuffled_indices(seed, epoch, n as nat),
        r@.len() == n,
        r@.to_multiset() == spec_identity_indices(n as nat).to_multiset(),
{
    let mut v: Vec<usize> = Vec::new();
    let mut i: usize = 0;
    while i < n
        invariant
            i <= n,
            v@.len() == i,
            forall|m: int| 0 <= m < i ==> #[trigger] v@[m] == m as usize,
        decreases n - i,
    {
        v.push(i);
        i += 1;
    }
    proof {
        assert(v@ =~= spec_identity_indices(n as nat));
    }
    let ghost orig = v@;
    let mut state: u64 = next_rand(seed ^ epoch);
    if n == 0 {
        return v;
    }
    let mut k: usize = n - 1;
    while k >= 1
        invariant
            k < n,
            v@.len() == n,
            spec_shuffle_from(v@, state, k as int) == spec_shuffle_from(
                orig,
                spec_epoch_state(seed, epoch),
                n as int - 1,
            ),
            v@.to_multiset() == orig.to_multiset(),
        decreases k,
    {
        let r = next_rand(state);
        let j: usize = (r % ((k as u64) + 1)) as usize;
        proof {
            assert(r as int % (k + 1) < k + 1 && r as int % (k + 1) >= 0);
            assert(j == r as int % (k + 1));
        }
        let ghost before = v@;
        let vj = v[j];
        let vk = v[k];
        v.set(k, vj);
        v.set(j, vk);
        proof {
            assert(v@ == before.update(k as int, before[j as int]).update(
                j as int,
                before[k as int],
            ));
            lemma_swap_multiset(before, k as int, j as int);
        }
        state = r;
        k -= 1;
    }
    proof {
        assert(spec_shuffle_from(v@, state, 0) == v@);
    }
    v
}

/// The shuffled order cut into consecutive batches: every batch is full,
/// except possibly the final one, and their concatenation is the order.
pub open spec fn spec_batched(order: Seq<usize>, bs: int) -> Seq<Seq<usize>>
    recommends
        bs >= 1,
    decreases order.len(),
{
    if order.len() == 0 || bs < 1 {
        Seq::empty()
    } else if order.len() <= bs {
        seq![order]
    } else {
        seq![order.take(bs)] + spec_batched(order.skip(bs), bs)
    }
}

/// What the batch partition guarantees: nonempty batches of at most the
/// batch size, all full but the last, concatenating back to the order.
pub proof fn lemma_batched_props(order: Seq<usize>, bs: int)
    requires
        bs >= 1,
    ensures
        forall|b: int|
            0 <= b < spec_batched(order, bs).len() ==> 1 <= (#[trigger] spec_batched(order, bs)[b]).len()
                <= bs,
        forall|b: int|
            0 <= b < spec_batched(order, bs).len() - 1 ==> (#[trigger] spec_batched(order, bs)[b]).len()
                == bs,
        spec_batched(order, bs).flatten() == order,
    decreases order.len(),
{
    broadcast use Seq::lemma_flatten_singleton;

    if order.len() == 0 {
        assert(spec_batched(order, bs).flatten() =~= order);
    } else if order.len() <= bs {
        assert(spec_batched(order, bs).flatten() == order);
    } else {
        lemma_batched_props(order.skip(bs), bs);
        let head = seq![order.take(bs)];
        vstd::seq_lib::lemma_flatten_concat(head, spec_batched(order.skip(bs), bs));
        assert(head.flatten() == order.take(bs));
        assert(order.take(bs) + order.skip(bs) =~= order);
    }
}

/// Cuts a drawn index order into consecutive batches.
pub fn batch_indices(order: &Vec<usize>, batch_size: usize) -> (r: Vec<Vec<usize>>)
    requires
        batch_size >= 1,
    ensures
        r.deep_view() == spec_batched(order@, batch_size as int),
{
    let mut out: Vec<Vec<usize>> = Vec::new();
    let n = order.len();
    let mut pos: usize = 0;
    proof {
        assert(order@.skip(0) =~= order@);
        assert(out.deep_view() + spec_batched(order@, batch_size as int) =~= spec_batched(
            order@,
            batch_size as int,
        ));
    }
    while pos < n
        invariant
            n == order@.len(),
            pos <= n,
            batch_size >= 1,
            out.deep_view() + spec_batched(order@.skip(pos as int), batch_size as int)
                == spec_batched(order@, batch_size as int),
        decreases n - pos,
    {
        let remaining = n - pos;
        let chunk = if remaining < batch_size {
            remaining
        } else {
            batch_size
        };
        let mut batch: Vec<usize> = Vec::new();
        let mut t: usize = 0;
        while t < chunk
            invariant
                n == order@.len(),
                t <= chunk,
                pos + chunk <= n,
                batch@.len() == t,
                forall|m: int| 0 <= m < t ==> #[trigger] batch@[m] == order@[pos + m],
            decreases chunk - t,
        {
            batch.push(order[pos + t]);
            t += 1;
        }
        let ghost rest = order@.skip(pos as int);
        let ghost dv = out.deep_view();
        proof {
            assert(batch@ =~= (if rest.len() <= batch_size as int {
                rest
            } else {
                rest.take(batch_size as int)
            }));
            if rest.len() > batch_size as int {
                assert(rest.skip(batch_size as int) =~= order@.skip(pos + chunk));
                assert(spec_batched(rest, batch_size as int) == seq![batch@] + spec_batched(
                    order@.skip(pos + chunk),
                    batch_size as int,
                ));
            } else {
                assert(order@.skip(pos + chunk) =~= Seq::<usize>::empty());
                assert(spec_batched(order@.skip(pos + chunk), batch_size as int)
                    == Seq::<Seq<usize>>::empty());
                assert(spec_batched(rest, batch_size as int) =~= seq![batch@] + spec_batched(
                    order@.skip(pos + chunk),
                    batch_size as int,
                ));
            }
        }
        out.push(batch);
        proof {
            assert(out.deep_view() =~~= dv.push(batch@));
            assert(dv.push(batch@) + spec_batched(order@.skip(pos + chunk), batch_size as int)
                =~= dv + (seq![batch@] + spec_batched(order@.skip(pos + chunk), batch_size as int)));
            assert(out.deep_view() + spec_batched(order@.skip(pos + chunk), batch_size as int)
                == spec_batched(order@, batch_size as int));
        }
        pos = pos + chunk;
    }
    proof {
        assert(order@.skip(order@.len() as int) =~= Seq::<usize>::empty());
        assert(out.deep_view() + spec_batched(
            order@.skip(order@.len() as int),
            batch_size as int,
        ) =~= out.deep_view());
    }
    out
}

/// Two training runs with identical seed and dataset draw identical batch
/// index orderings in every epoch: the ordering is a pure function of seed,
/// epoch and dataset size, so equal inputs force equal orders.
pub proof fn lemma_deterministic_shuffle(
    seed: u64,
    epoch: u64,
    n: nat,
    first_run: Seq<usize>,
    second_run: Seq<usize>,
)
    requires
        first_run == spec_shuffled_indices(seed, epoch, n),
        second_run == spec_shuffled_indices(seed, epoch, n),
    ensures
        first_run == second_run,
{
}

/// Two training runs with identical seed, dataset size and batch size
/// present identical batch index lists in every epoch.
pub proof fn lemma_deterministic_batches(
    seed: u64,
    epoch: u64,
    n: nat,
    batch_size: int,
    first_run: Seq<Seq<usize>>,
    second_run: Seq<Seq<usize>>,
)
    requires
        first_run == spec_batched(spec_shuffled_indices(seed, epoch, n), batch_size),
        second_run == spec_batched(spec_shuffled_indices(seed, epoch, n), batch_size),
    ensures
        first_run == second_run,
{
}

/// The batch index lists of one epoch: the same deterministic shuffle feeds
/// the training pipeline and, as this implementation fixes it, the
/// validation pipeline too.
pub struct EpochPlan {
    /// This epoch's number, counted from 1.
    pub epoch: usize,
    pub train_batches: Vec<Vec<usize>>,
    pub valid_batches: Vec<Vec<usize>>,
}

/// Everything a run of training is decided by before the engine starts:
/// the configuration record to persist, the seed to hand the engine, and
/// every epoch's batch index lists. After each epoch's batches the engine's
/// parameters are checkpointed; after the last epoch they are persisted as
/// the final model.
pub struct TrainingPlan {
    pub config_record: Vec<u8>,
    pub seed: u64,
    pub epochs: Vec<EpochPlan>,
}

/// Lays out a full training run over a training split of `train_len`
/// records and a validation split of `test_len` records.
pub fn train(config: &TrainingConfig, train_len: usize, test_len: usize) -> (plan: TrainingPlan)
    requires
        config.batch_size >= 1,
    ensures
        plan.config_record@ == spec_encode_config(*config),
        plan.seed == config.seed,
        plan.epochs@.len() == config.num_epochs,
        forall|e: int|
            0 <= e < config.num_epochs ==> (#[trigger] plan.epochs@[e]).epoch == e + 1,
        forall|e: int|
            0 <= e < config.num_epochs ==> (#[trigger] plan.epochs@[e]).train_batches.deep_view()
                == spec_batched(
                spec_shuffled_indices(config.seed, (e + 1) as u64, train_len as nat),
                config.batch_size as int,
            ),
        forall|e: int|
            0 <= e < config.num_epochs ==> (#[trigger] plan.epochs@[e]).valid_batches.deep_view()
                == spec_batched(
                spec_shuffled_indices(config.seed, (e + 1) as u64, test_len as nat),
                config.batch_size as int,
            ),
{
    let config_record = encode_config(config);
    let mut epochs: Vec<EpochPlan> = Vec::new();
    let mut e: usize = 0;
    while e < config.num_epochs
        invariant
            config.batch_size >= 1,
            e <= config.num_epochs,
            epochs@.len() == e,
            forall|k: int| 0 <= k < e ==> (#[trigger] epochs@[k]).epoch == k + 1,
            forall|k: int|
                0 <= k < e ==> (#[trigger] epochs@[k]).train_batches.deep_view() == spec_batched(
                    spec_shuffled_indices(config.seed, (k + 1) as u64, train_len as nat),
                    config.batch_size as int,
                ),
            forall|k: int|
                0 <= k < e ==> (#[trigger] epochs@[k]).valid_batches.deep_view() == spec_batched(
                    spec_shuffled_indices(config.seed, (k + 1) as u64, test_len as nat),
                    config.batch_size as int,
                ),
        decreases config.num_epochs - e,
    {
        let epoch = e + 1;
        let train_order = shuffled_indices(config.seed, epoch as u64, train_len);
        let train_batches = batch_indices(&train_order, config.batch_size);
        let valid_order = shuffled_indices(config.seed, epoch as u64, test_len);
        let valid_batches = batch_indices(&valid_order, config.batch_size);
        epochs.push(EpochPlan { epoch, train_batches, valid_batches });
        e = epoch;
    }
    TrainingPlan { config_record, seed: config.seed, epochs }
}

/// Where a training run stands: initialization, one epoch's training or
/// validation pass, the checkpoint after an epoch, completion, or an abort
/// on the first fatal failure.
#[derive(Clone, Copy, Debug, PartialEq, Eq, Structural)]
pub enum TrainPhase {
    Initializing,
    Training { epoch: usize },
    Validating { epoch: usize },
    Checkpointing { epoch: usize },
    Done,
    Aborted,
}

/// What the engine-driving loop reports back to the lifecycle.
#[derive(Clone, Copy, Debug, PartialEq, Eq, Structural)]
pub enum TrainEvent {
    /// Both batch pipelines were built from parsed datasets.
    PipelinesBuilt,
    /// A dataset failed to load or parse while building a pipeline.
    PipelineFailed,
    /// Every training batch of the current epoch was stepped.
    EpochTrained,
    /// Every validation batch of the current epoch was scored.
    EpochValidated,
    /// The epoch's parameter checkpoint was persisted.
    CheckpointSaved,
    /// Persisting a checkpoint failed.
    SaveFailed,
}

/// The training lifecycle: initialization leads into epoch 1 (or straight
/// to done when no epochs are configured); each epoch trains, validates,
/// then checkpoints; the last checkpoint completes the run. A pipeline
/// failure before the first epoch, or a save failure at any checkpoint, is
/// fatal. An event that does not belong to the current phase leaves the
/// phase unchanged.
pub open spec fn spec_train_step(phase: TrainPhase, event: TrainEvent, num_epochs: usize) -> TrainPhase {
    match (phase, event) {
        (TrainPhase::Initializing, TrainEvent::PipelinesBuilt) => if num_epochs == 0 {
            TrainPhase::Done
        } else {
            TrainPhase::Training { epoch: 1 }
        },
        (TrainPhase::Initializing, TrainEvent::PipelineFailed) => TrainPhase::Aborted,
        (TrainPhase::Training { epoch }, TrainEvent::EpochTrained) => TrainPhase::Validating {
            epoch,
        },
        (TrainPhase::Validating { epoch }, TrainEvent::EpochValidated) => TrainPhase::Checkpointing {
            epoch,
        },
        (TrainPhase::Checkpointing { epoch }, TrainEvent::CheckpointSaved) => if epoch
            >= num_epochs {
            TrainPhase::Done
        } else {
            TrainPhase::Training { epoch: (epoch + 1) as usize }
        },
        (TrainPhase::Checkpointing { .. }, TrainEvent::SaveFailed) => TrainPhase::Aborted,
        _ => phase,
    }
}

/// A phase speaks of an epoch only between 1 and the configured count.
pub open spec fn spec_phase_wf(phase: TrainPhase, num_epochs: usize) -> bool {
    match phase {
        TrainPhase::Training { epoch } => 1 <= epoch <= num_epochs,
        TrainPhase::Validating { epoch } => 1 <= epoch <= num_epochs,
        TrainPhase::Checkpointing { epoch } => 1 <= epoch <= num_epochs,
        _ => true,
    }
}

/// Advances the training lifecycle by one reported event.
pub fn train_step(phase: TrainPhase, event: TrainEvent, num_epochs: usize) -> (next: TrainPhase)
    ensures
        next == spec_train_step(phase, event, num_epochs),
        spec_phase_wf(phase, num_epochs) ==> spec_phase_wf(next, num_epochs),
{
    match (phase, event) {
        (TrainPhase::Initializing, TrainEvent::PipelinesBuilt) => {
            if num_epochs == 0 {
                TrainPhase::Done
            } else {
                TrainPhase::Training { epoch: 1 }
            }
        },
        (TrainPhase::Initializing, TrainEvent::PipelineFailed) => TrainPhase::Aborted,
        (TrainPhase::Training { epoch }, TrainEvent::EpochTrained) => TrainPhase::Validating {
            epoch,
        },
        (TrainPhase::Validating { epoch }, TrainEvent::EpochValidated) => TrainPhase::Checkpointing {
            epoch,
        },
        (TrainPhase::Checkpointing { epoch }, TrainEvent::CheckpointSaved) => {
            if epoch >= num_epochs {
                TrainPhase::Done
            } else {
                TrainPhase::Training { epoch: epoch + 1 }
            }
        },
        (TrainPhase::Checkpointing { epoch: _ }, TrainEvent::SaveFailed) => TrainPhase::Aborted,
        (p, _) => p,
    }
}

} // verus!
