//! Inference over persisted artifacts: rebuild the model from the stored
//! configuration and parameter snapshot, and turn the engine's per-class
//! scores for one collated item into a prediction.
//!
//! The forward pass that produces the scores is the tensor engine's; the
//! decisions around it — artifact validation, shape checking, and the
//! leftmost-maximum class choice — are proved here.

use vstd::prelude::*;
use crate::artifact::SchemaError;
use crate::artifact::parse_config;
use crate::artifact::parse_record;
use crate::artifact::spec_parse_config;
use crate::artifact::spec_parse_record;
use crate::data::Cifar10Item;
use crate::data::IMAGE_BYTE_SIZE;
use crate::model::Cifar10Model;
use crate::model::LinearShape;
use crate::model::ShapeMismatchError;
use crate::model::spec_param_bytes;
use crate::training::TrainingConfig;

verus! {

/// Why inference could not start from the given artifacts.
#[derive(Clone, Copy, Debug, PartialEq, Eq, Structural)]
pub enum InferenceError {
    /// The configuration record does not match the expected schema.
    Config(SchemaError),
    /// The parameter snapshot record does not match the expected format.
    Record(SchemaError),
    /// The snapshot's shapes disagree with the configured architecture.
    Shape(ShapeMismatchError),
}

/// The layer shapes the stored configuration asks for.
pub open spec fn spec_expected_linear1(c: TrainingConfig) -> LinearShape {
    LinearShape { d_input: IMAGE_BYTE_SIZE, d_output: c.model.hidden_size }
}

/// The second layer's shape under the stored configuration.
pub open spec fn spec_expected_linear2(c: TrainingConfig) -> LinearShape {
    LinearShape { d_input: c.model.hidden_size, d_output: c.model.num_classes }
}

/// Rebuilds the classifier from the persisted configuration and parameter
/// snapshot: parses both records, re-initializes a model of the configured
/// architecture, and restores the snapshot into it.
///
/// Succeeds exactly when both records parse and the snapshot's shapes equal
/// the configured shapes; each failure reports which record (or shape pair)
/// was at fault.
pub fn prepare(config_bytes: &Vec<u8>, record_bytes: &Vec<u8>) -> (r: Result<
    Cifar10Model,
    InferenceError,
>)
    ensures
        r is Ok <==> (spec_parse_config(config_bytes@) matches Some(c)
            && spec_parse_record(record_bytes@) matches Some(rec) && rec.linear1
            == spec_expected_linear1(c) && rec.linear2 == spec_expected_linear2(c)),
        r matches Ok(m) ==> (spec_parse_config(config_bytes@) matches Some(c)
            && spec_parse_record(record_bytes@) matches Some(rec) && m.linear1
            == spec_expected_linear1(c) && m.linear2 == spec_expected_linear2(c) && m.params@
            == rec.params && m.wf()),
        r == Err::<Cifar10Model, InferenceError>(InferenceError::Config(SchemaError {  }))
            <==> spec_parse_config(config_bytes@) is None,
        r == Err::<Cifar10Model, InferenceError>(InferenceError::Record(SchemaError {  }))
            <==> (spec_parse_config(config_bytes@) is Some && spec_parse_record(record_bytes@)
            is None),
        r matches Err(InferenceError::Shape(s)) ==> (spec_parse_config(
            config_bytes@,
        ) matches Some(c) && spec_parse_record(record_bytes@) matches Some(rec) && s == (
        ShapeMismatchError {
            expected_linear1: spec_expected_linear1(c),
            expected_linear2: spec_expected_linear2(c),
            found_linear1: rec.linear1,
            found_linear2: rec.linear2,
        }) && !(rec.linear1 == spec_expected_linear1(c) && rec.linear2 == spec_expected_linear2(
            c,
        ))),
{
    let config = match parse_config(config_bytes) {
        Ok(c) => c,
        Err(e) => {
            return Err(InferenceError::Config(e));
        },
    };
    let record = match parse_record(record_bytes) {
        Ok(rec) => rec,
        Err(e) => {
            return Err(InferenceError::Record(e));
        },
    };
    let expected1 = LinearShape { d_input: IMAGE_BYTE_SIZE, d_output: config.model.hidden_size };
    let expected2 = LinearShape {
        d_input: config.model.hidden_size,
        d_output: config.model.num_classes,
    };
    if record.linear1 == expected1 && record.linear2 == expected2 {
        let payload_len = record.params.len();
        proof {
            assert(spec_param_bytes(expected1, expected2) == payload_len as int);
        }
        let fresh = config.model.init();
        match fresh.load_record(record) {
            Ok(m) => Ok(m),
            Err(_) => {
                proof {
                    assert(false);
                }
                Err(InferenceError::Config(SchemaError {  }))
            },
        }
    } else {
        Err(
            InferenceError::Shape(
                ShapeMismatchError {
                    expected_linear1: expected1,
                    expected_linear2: expected2,
                    found_linear1: record.linear1,
                    found_linear2: record.linear2,
                },
            ),
        )
    }
}

/// `i` is where a left-to-right maximum scan of `scores` stops: no score
/// beats it, and every earlier score is strictly below it.
pub open spec fn spec_is_argmax(scores: Seq<i64>, i: int) -> bool {
    &&& 0 <= i < scores.len()
    &&& forall|j: int| 0 <= j < scores.len() ==> #[trigger] scores[j] <= scores[i]
    &&& forall|j: int| 0 <= j < i ==> #[trigger] scores[j] < scores[i]
}

/// The index of the greatest score, ties broken by the lowest index; or
/// nothing when there are no scores.
pub fn argmax(scores: &Vec<i64>) -> (r: Option<usize>)
    ensures
        r is Some <==> scores@.len() > 0,
        r matches Some(i) ==> spec_is_argmax(scores@, i as int),
{
    if scores.len() == 0 {
        return None;
    }
    let mut best: usize = 0;
    let mut i: usize = 1;
    while i < scores.len()
        invariant
            best < i <= scores@.len(),
            forall|j: int| 0 <= j < i ==> #[trigger] scores@[j] <= scores@[best as int],
            forall|j: int| 0 <= j < best ==> #[trigger] scores@[j] < scores@[best as int],
        decreases scores@.len() - i,
    {
        if scores[i] > scores[best] {
            best = i;
        }
        i += 1;
    }
    Some(best)
}

/// One reported inference outcome: the class the scores select, next to
/// the item's true label. No pass/fail judgment is made here.
#[derive(Clone, Copy, Debug, PartialEq, Eq, Structural)]
pub struct Prediction {
    pub predicted: usize,
    pub expected: u8,
}

/// Turns the engine's per-class scores for one item into the predicted
/// class — the leftmost maximum — next to the item's true label.
pub fn infer(model: &Cifar10Model, item: &Cifar10Item, scores: &Vec<i64>) -> (r: Prediction)
    requires
        scores@.len() == model.linear2.d_output,
        scores@.len() >= 1,
    ensures
        r.expected == item@.label,
        spec_is_argmax(scores@, r.predicted as int),
        r.predicted < model.linear2.d_output,
{
    let predicted = match argmax(scores) {
        Some(i) => i,
        None => {
            proof {
                assert(false);
            }
            0
        },
    };
    Prediction { predicted, expected: item.label }
}

} // verus!
