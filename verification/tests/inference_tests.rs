use cifar10::artifact::encode_config;
use cifar10::artifact::encode_record;
use cifar10::data::Cifar10Batcher;
use cifar10::data::Cifar10Dataset;
use cifar10::inference::InferenceError;
use cifar10::inference::argmax;
use cifar10::inference::infer;
use cifar10::inference::prepare;
use cifar10::model::Cifar10ModelConfig;
use cifar10::training::OptimizerConfig;
use cifar10::training::TrainingConfig;

#[test]
fn argmax_takes_the_leftmost_maximum() {
    assert_eq!(argmax(&vec![5, 5, 3]), Some(0));
    assert_eq!(argmax(&vec![1, 3, 3]), Some(1));
    assert_eq!(argmax(&vec![-7, -2, -2, -9]), Some(1));
    assert_eq!(argmax(&vec![4]), Some(0));
    assert_eq!(argmax(&Vec::new()), None);
}

#[test]
fn mismatched_snapshot_is_rejected_not_reinterpreted() {
    let config_512 = TrainingConfig::new(Cifar10ModelConfig::new(10, 512), OptimizerConfig::Adam);
    let snapshot = encode_record(&config_512.model.init().into_record());
    let config_128 = TrainingConfig::new(Cifar10ModelConfig::new(10, 128), OptimizerConfig::Adam);
    let config_bytes = encode_config(&config_128);
    match prepare(&config_bytes, &snapshot) {
        Err(InferenceError::Shape(e)) => {
            assert_eq!(e.expected_linear1.d_output, 128);
            assert_eq!(e.found_linear1.d_output, 512);
        },
        other => panic!("expected a shape mismatch, got {:?}", other.map(|_| ())),
    }
}

#[test]
fn absent_or_malformed_artifacts_are_rejected() {
    let config = TrainingConfig::new(Cifar10ModelConfig::new(10, 16), OptimizerConfig::Adam);
    let config_bytes = encode_config(&config);
    let snapshot = encode_record(&config.model.init().into_record());
    assert!(matches!(
        prepare(&Vec::new(), &snapshot),
        Err(InferenceError::Config(_))
    ));
    assert!(matches!(
        prepare(&config_bytes, &Vec::new()),
        Err(InferenceError::Record(_))
    ));
}

#[test]
fn end_to_end_single_record_scenario() {
    // A synthetic one-record file: label 7, then image bytes 0, 1, ..., 255
    // repeating.
    let mut file = vec![7u8];
    for i in 0..3072usize {
        file.push((i % 256) as u8);
    }
    assert_eq!(file.len(), 3073);

    let dataset = Cifar10Dataset::test(&file).unwrap();
    assert_eq!(dataset.len(), 1);
    let item = dataset.get(0).unwrap();
    assert_eq!(item.label, 7);

    let batch = Cifar10Batcher.batch(&vec![item]);
    assert_eq!(batch.images[0] as f32 / 255.0, 0.0);
    assert_eq!(batch.targets, vec![7i64]);

    // An untrained but validly initialized model still loads and predicts
    // some class in range.
    let config = TrainingConfig::new(Cifar10ModelConfig::new(10, 16), OptimizerConfig::Adam);
    let config_bytes = encode_config(&config);
    let snapshot = encode_record(&config.model.init().into_record());
    let model = prepare(&config_bytes, &snapshot).unwrap();

    // The engine's forward pass supplies the per-class scores; any scores
    // of the configured width yield a prediction in range.
    let scores: Vec<i64> = vec![0, 3, -1, 9, 9, 2, -4, 0, 1, 8];
    let item_again = dataset.get(0).unwrap();
    let prediction = infer(&model, &item_again, &scores);
    assert!(prediction.predicted < 10);
    assert_eq!(prediction.predicted, 3);
    assert_eq!(prediction.expected, 7);
}
