use cifar10::model::Cifar10ModelConfig;
use cifar10::training::OptimizerConfig;
use cifar10::training::TrainEvent;
use cifar10::training::TrainPhase;
use cifar10::training::TrainingConfig;
use cifar10::training::batch_indices;
use cifar10::training::shuffled_indices;
use cifar10::training::train;
use cifar10::training::train_step;

#[test]
fn shuffle_is_deterministic_per_seed_and_epoch() {
    let first_run = shuffled_indices(42, 1, 50);
    let second_run = shuffled_indices(42, 1, 50);
    assert_eq!(first_run, second_run);
}

#[test]
fn shuffle_is_a_permutation() {
    let order = shuffled_indices(7, 3, 100);
    assert_eq!(order.len(), 100);
    let mut sorted = order.clone();
    sorted.sort();
    let identity: Vec<usize> = (0..100).collect();
    assert_eq!(sorted, identity);
}

#[test]
fn shuffle_of_tiny_sets() {
    assert_eq!(shuffled_indices(1, 1, 0), Vec::<usize>::new());
    assert_eq!(shuffled_indices(1, 1, 1), vec![0]);
}

#[test]
fn batches_cut_the_order_without_loss() {
    let order: Vec<usize> = (0..10).collect();
    let batches = batch_indices(&order, 4);
    assert_eq!(batches.len(), 3);
    assert_eq!(batches[0], vec![0, 1, 2, 3]);
    assert_eq!(batches[1], vec![4, 5, 6, 7]);
    assert_eq!(batches[2], vec![8, 9]);
    let flat: Vec<usize> = batches.into_iter().flatten().collect();
    assert_eq!(flat, order);
}

#[test]
fn batch_of_one_each() {
    let order: Vec<usize> = vec![3, 1, 2];
    let batches = batch_indices(&order, 1);
    assert_eq!(batches, vec![vec![3], vec![1], vec![2]]);
}

#[test]
fn plan_is_reproducible_and_shaped_by_the_config() {
    let mut config = TrainingConfig::new(Cifar10ModelConfig::new(10, 128), OptimizerConfig::Adam);
    config.num_epochs = 3;
    config.batch_size = 8;
    let plan_a = train(&config, 30, 10);
    let plan_b = train(&config, 30, 10);
    assert_eq!(plan_a.seed, 42);
    assert_eq!(plan_a.epochs.len(), 3);
    for (e, ep) in plan_a.epochs.iter().enumerate() {
        assert_eq!(ep.epoch, e + 1);
        let flat: usize = ep.train_batches.iter().map(|b| b.len()).sum();
        assert_eq!(flat, 30);
        let flat_valid: usize = ep.valid_batches.iter().map(|b| b.len()).sum();
        assert_eq!(flat_valid, 10);
        assert_eq!(ep.train_batches, plan_b.epochs[e].train_batches);
        assert_eq!(ep.valid_batches, plan_b.epochs[e].valid_batches);
    }
    assert_eq!(plan_a.config_record, plan_b.config_record);
}

#[test]
fn lifecycle_runs_epochs_then_completes() {
    let n = 2usize;
    let mut phase = TrainPhase::Initializing;
    phase = train_step(phase, TrainEvent::PipelinesBuilt, n);
    assert_eq!(phase, TrainPhase::Training { epoch: 1 });
    phase = train_step(phase, TrainEvent::EpochTrained, n);
    assert_eq!(phase, TrainPhase::Validating { epoch: 1 });
    phase = train_step(phase, TrainEvent::EpochValidated, n);
    assert_eq!(phase, TrainPhase::Checkpointing { epoch: 1 });
    phase = train_step(phase, TrainEvent::CheckpointSaved, n);
    assert_eq!(phase, TrainPhase::Training { epoch: 2 });
    phase = train_step(phase, TrainEvent::EpochTrained, n);
    phase = train_step(phase, TrainEvent::EpochValidated, n);
    phase = train_step(phase, TrainEvent::CheckpointSaved, n);
    assert_eq!(phase, TrainPhase::Done);
}

#[test]
fn lifecycle_aborts_on_fatal_failures() {
    assert_eq!(
        train_step(TrainPhase::Initializing, TrainEvent::PipelineFailed, 5),
        TrainPhase::Aborted
    );
    assert_eq!(
        train_step(TrainPhase::Checkpointing { epoch: 3 }, TrainEvent::SaveFailed, 5),
        TrainPhase::Aborted
    );
}

#[test]
fn lifecycle_with_no_epochs_is_done_at_once() {
    assert_eq!(
        train_step(TrainPhase::Initializing, TrainEvent::PipelinesBuilt, 0),
        TrainPhase::Done
    );
}
