use cifar10::data::Cifar10Batcher;
use cifar10::data::Cifar10Dataset;
use cifar10::data::Cifar10Item;
use cifar10::data::serialize_records;

const RECORD: usize = 3073;

/// A synthetic record: the label byte, then 3072 image bytes cycling
/// through 0..=255 starting from `start`.
fn record_bytes(label: u8, start: u8) -> Vec<u8> {
    let mut out = vec![label];
    for i in 0..3072usize {
        out.push(((start as usize + i) % 256) as u8);
    }
    out
}

#[test]
fn parse_splits_records_in_file_order() {
    let mut buf = record_bytes(3, 0);
    buf.extend(record_bytes(9, 5));
    let items = Cifar10Dataset::read_binary_file(&buf).unwrap();
    assert_eq!(items.len(), 2);
    assert_eq!(items[0].label, 3);
    assert_eq!(items[1].label, 9);
    assert_eq!(items[0].image[0], 0);
    assert_eq!(items[0].image[1], 1);
    assert_eq!(items[1].image[0], 5);
    assert_eq!(items[0].image.len(), 3072);
}

#[test]
fn parse_then_serialize_round_trips() {
    let mut buf = record_bytes(1, 7);
    buf.extend(record_bytes(254, 200));
    buf.extend(record_bytes(0, 0));
    let items = Cifar10Dataset::read_binary_file(&buf).unwrap();
    let again = serialize_records(&items);
    assert_eq!(again, buf);
}

#[test]
fn parse_of_empty_buffer_is_empty() {
    let buf: Vec<u8> = Vec::new();
    let items = Cifar10Dataset::read_binary_file(&buf).unwrap();
    assert_eq!(items.len(), 0);
}

#[test]
fn parse_rejects_trailing_bytes() {
    for r in [1usize, 5, RECORD - 1] {
        let mut buf = record_bytes(0, 0);
        buf.extend(std::iter::repeat(0u8).take(r));
        let err = Cifar10Dataset::read_binary_file(&buf).unwrap_err();
        assert_eq!(err.expected_multiple, RECORD);
        assert_eq!(err.actual_len, RECORD + r);
    }
}

#[test]
fn train_concatenates_five_files_in_order() {
    let buffers: Vec<Vec<u8>> = (0u8..5).map(|k| record_bytes(k, k)).collect();
    let ds = Cifar10Dataset::train(&buffers).unwrap();
    assert_eq!(ds.len(), 5);
    for k in 0u8..5 {
        assert_eq!(ds.get(k as usize).unwrap().label, k);
    }
}

#[test]
fn train_rejects_one_malformed_file() {
    let mut buffers: Vec<Vec<u8>> = (0u8..5).map(|k| record_bytes(k, 0)).collect();
    buffers[2].push(0);
    let err = Cifar10Dataset::train(&buffers).unwrap_err();
    assert_eq!(err.expected_multiple, RECORD);
    assert_eq!(err.actual_len, RECORD + 1);
}

#[test]
fn get_out_of_range_is_none_not_fatal() {
    let ds = Cifar10Dataset::test(&Vec::new()).unwrap();
    assert_eq!(ds.len(), 0);
    assert!(ds.get(0).is_none());
}

#[test]
fn batch_stacks_rows_in_input_order() {
    let items = vec![
        Cifar10Item { image: vec![10u8; 3072], label: 2 },
        Cifar10Item { image: vec![20u8; 3072], label: 5 },
        Cifar10Item { image: vec![30u8; 3072], label: 9 },
    ];
    let batch = Cifar10Batcher.batch(&items);
    assert_eq!(batch.targets, vec![2i64, 5, 9]);
    assert_eq!(batch.images.len(), 3 * 3072);
    assert!(batch.images[..3072].iter().all(|&b| b == 10));
    assert!(batch.images[3072..6144].iter().all(|&b| b == 20));
    assert!(batch.images[6144..].iter().all(|&b| b == 30));
}

#[test]
fn normalization_endpoints_are_exact() {
    // The batch stores the byte numerators of value / 255; the engine's
    // float division maps 0 to exactly 0.0 and 255 to exactly 1.0.
    let mut image = vec![0u8; 3072];
    image[0] = 0;
    image[1] = 255;
    image[2] = 128;
    let items = vec![Cifar10Item { image, label: 0 }];
    let batch = Cifar10Batcher.batch(&items);
    for b in 0u16..=255 {
        let v = b as f32 / 255.0;
        assert!((0.0..=1.0).contains(&v));
    }
    assert_eq!(batch.images[0] as f32 / 255.0, 0.0);
    assert_eq!(batch.images[1] as f32 / 255.0, 1.0);
    assert_eq!(batch.images[2], 128);
}

#[test]
fn batch_of_no_items_is_empty() {
    let batch = Cifar10Batcher.batch(&Vec::new());
    assert!(batch.images.is_empty());
    assert!(batch.targets.is_empty());
}

#[test]
fn serialize_of_no_records_is_empty() {
    assert!(serialize_records(&Vec::new()).is_empty());
}
