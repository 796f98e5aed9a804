use cifar10::artifact::encode_config;
use cifar10::artifact::encode_record;
use cifar10::artifact::parse_config;
use cifar10::artifact::parse_record;
use cifar10::model::Cifar10ModelConfig;
use cifar10::training::OptimizerConfig;
use cifar10::training::TrainingConfig;

fn default_config() -> TrainingConfig {
    TrainingConfig::new(Cifar10ModelConfig::new(10, 128), OptimizerConfig::Adam)
}

#[test]
fn config_record_is_inspectable_json() {
    let bytes = encode_config(&default_config());
    let text = String::from_utf8(bytes).unwrap();
    assert_eq!(
        text,
        "{\"model\":{\"num_classes\":10,\"hidden_size\":128},\"optimizer\":\"adam\",\
         \"num_epochs\":10,\"batch_size\":64,\"num_workers\":4,\"seed\":42,\
         \"learning_rate_micros\":100}"
    );
}

#[test]
fn config_round_trips_field_for_field() {
    let mut config = default_config();
    config.model.hidden_size = 512;
    config.num_epochs = 1;
    config.batch_size = 2;
    config.num_workers = 0;
    config.seed = u64::MAX;
    config.learning_rate_micros = 0;
    let parsed = parse_config(&encode_config(&config)).unwrap();
    assert_eq!(parsed, config);
}

#[test]
fn config_parse_rejects_garbage() {
    assert!(parse_config(&Vec::new()).is_err());
    assert!(parse_config(&"{}".as_bytes().to_vec()).is_err());
    let mut bytes = encode_config(&default_config());
    bytes.pop();
    assert!(parse_config(&bytes).is_err());
    bytes.push(b'}');
    bytes.push(b' ');
    assert!(parse_config(&bytes).is_err());
}

#[test]
fn config_parse_rejects_overflowing_numbers() {
    let text = "{\"model\":{\"num_classes\":99999999999999999999999,\"hidden_size\":128},\
                \"optimizer\":\"adam\",\"num_epochs\":10,\"batch_size\":64,\"num_workers\":4,\
                \"seed\":42,\"learning_rate_micros\":100}";
    assert!(parse_config(&text.as_bytes().to_vec()).is_err());
}

#[test]
fn model_record_round_trips() {
    let model = Cifar10ModelConfig::new(10, 4).init();
    let record = model.into_record();
    let bytes = encode_record(&record);
    let parsed = parse_record(&bytes).unwrap();
    assert_eq!(parsed.linear1, record.linear1);
    assert_eq!(parsed.linear2, record.linear2);
    assert_eq!(parsed.params, record.params);
}

#[test]
fn model_record_parse_rejects_wrong_payload_length() {
    let model = Cifar10ModelConfig::new(10, 4).init();
    let mut bytes = encode_record(&model.into_record());
    bytes.pop();
    assert!(parse_record(&bytes).is_err());
    bytes.push(0);
    bytes.push(0);
    assert!(parse_record(&bytes).is_err());
    assert!(parse_record(&vec![0u8; 31]).is_err());
}

#[test]
fn reloaded_parameters_equal_the_saved_ones() {
    let config = Cifar10ModelConfig::new(10, 4);
    let trained = config.init();
    let saved_params = trained.params.clone();
    let record = trained.into_record();
    let bytes = encode_record(&record);
    let reloaded = parse_record(&bytes).unwrap();
    let fresh = config.init();
    let restored = fresh.load_record(reloaded).unwrap();
    assert_eq!(restored.params, saved_params);
}
