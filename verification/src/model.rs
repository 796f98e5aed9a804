//! The classifier model as the data pipeline sees it: layer shapes derived
//! from a configuration, and an opaque parameter payload that is snapshotted
//! for saving and restored on loading.
//!
//! The forward computation itself (matrix products, activations, logits) is
//! the tensor engine's: it is an external collaborator, and nothing here
//! re-states it. What this module pins down is the part with invariants:
//! which shapes a configuration induces, how many parameter bytes they
//! imply, and that restoring a snapshot into a model of mismatched shapes
//! fails rather than silently reinterpreting the buffer.

use vstd::prelude::*;
use crate::data::IMAGE_BYTE_SIZE;

verus! {

/// Default class count for the CIFAR-10 classifier.
pub const DEFAULT_NUM_CLASSES: usize = 10;

/// Default hidden-layer width.
pub const DEFAULT_HIDDEN_SIZE: usize = 128;

/// Bytes per stored parameter: the engine keeps each weight as a 4-byte
/// float.
pub const PARAM_BYTE_SIZE: usize = 4;

/// The shape of one dense (linear) layer.
#[derive(Clone, Copy, Debug, PartialEq, Eq, Structural)]
pub struct LinearShape {
    pub d_input: usize,
    pub d_output: usize,
}

impl LinearShape {
    /// Trainable parameters of the layer: the weight matrix plus the bias
    /// vector.
    pub open spec fn param_count(self) -> int {
        self.d_input * self.d_output + self.d_output
    }
}

/// Architecture hyperparameters: class count and hidden-layer width.
#[derive(Clone, Copy, Debug, PartialEq, Eq, Structural)]
pub struct Cifar10ModelConfig {
    pub num_classes: usize,
    pub hidden_size: usize,
}

/// A parameter-loading attempt whose snapshot shapes disagree with the
/// freshly-initialized model's shapes.
#[derive(Clone, Copy, Debug, PartialEq, Eq, Structural)]
pub struct ShapeMismatchError {
    pub expected_linear1: LinearShape,
    pub expected_linear2: LinearShape,
    pub found_linear1: LinearShape,
    pub found_linear2: LinearShape,
}

/// The classifier model: two dense layers' shapes, plus the opaque bytes of
/// their parameters. The byte payload is exactly as long as the shapes
/// demand, so a snapshot can never be silently truncated or padded.
pub struct Cifar10Model {
    pub linear1: LinearShape,
    pub linear2: LinearShape,
    pub params: Vec<u8>,
}

/// A persisted parameter snapshot: the shapes the parameters were trained
/// under, and their raw bytes.
pub struct ModelRecord {
    pub linear1: LinearShape,
    pub linear2: LinearShape,
    pub params: Vec<u8>,
}

/// The mathematical model of a parameter snapshot.
pub ghost struct ModelRecordView {
    pub linear1: LinearShape,
    pub linear2: LinearShape,
    pub params: Seq<u8>,
}

impl View for ModelRecord {
    type V = ModelRecordView;

    open spec fn view(&self) -> ModelRecordView {
        ModelRecordView { linear1: self.linear1, linear2: self.linear2, params: self.params@ }
    }
}

/// The parameter payload that shapes `l1` and `l2` demand, in bytes.
pub open spec fn spec_param_bytes(l1: LinearShape, l2: LinearShape) -> int {
    PARAM_BYTE_SIZE * (l1.param_count() + l2.param_count())
}

impl ModelRecordView {
    /// A well-formed snapshot carries exactly the payload its shapes demand.
    pub open spec fn wf(self) -> bool {
        self.params.len() == spec_param_bytes(self.linear1, self.linear2)
    }
}

impl ModelRecord {
    pub open spec fn wf(&self) -> bool {
        self@.wf()
    }
}

impl Cifar10ModelConfig {
    /// A configuration with the given class count and hidden width.
    pub fn new(num_classes: usize, hidden_size: usize) -> (r: Self)
        ensures
            r.num_classes == num_classes,
            r.hidden_size == hidden_size,
    {
        Cifar10ModelConfig { num_classes, hidden_size }
    }

    /// The shape of the first dense layer: flattened image to hidden.
    pub open spec fn spec_linear1(self) -> LinearShape {
        LinearShape { d_input: IMAGE_BYTE_SIZE, d_output: self.hidden_size }
    }

    /// The shape of the second dense layer: hidden to per-class scores.
    pub open spec fn spec_linear2(self) -> LinearShape {
        LinearShape { d_input: self.hidden_size, d_output: self.num_classes }
    }

    /// Initializes a model of this architecture. The parameter payload is
    /// zeroed: actual starting weights are the tensor engine's to draw, and
    /// a snapshot load replaces the payload wholly.
    pub fn init(&self) -> (m: Cifar10Model)
        requires
            spec_param_bytes(self.spec_linear1(), self.spec_linear2()) <= usize::MAX,
        ensures
            m.linear1 == self.spec_linear1(),
            m.linear2 == self.spec_linear2(),
            m.wf(),
            forall|i: int| 0 <= i < m.params@.len() ==> m.params@[i] == 0u8,
    {
        let linear1 = LinearShape { d_input: IMAGE_BYTE_SIZE, d_output: self.hidden_size };
        let linear2 = LinearShape { d_input: self.hidden_size, d_output: self.num_classes };
        let n = param_byte_len(linear1, linear2);
        let mut params: Vec<u8> = Vec::new();
        let mut i: usize = 0;
        while i < n
            invariant
                i <= n,
                params@.len() == i,
                forall|k: int| 0 <= k < i ==> params@[k] == 0u8,
            decreases n - i,
        {
            params.push(0u8);
            i += 1;
        }
        Cifar10Model { linear1, linear2, params }
    }
}

/// The parameter payload that shapes `l1` and `l2` demand, computed without
/// overflow.
fn param_byte_len(l1: LinearShape, l2: LinearShape) -> (n: usize)
    requires
        spec_param_bytes(l1, l2) <= usize::MAX,
    ensures
        n == spec_param_bytes(l1, l2),
{
    proof {
        assert(0 <= l1.d_input * l1.d_output && 0 <= l2.d_input * l2.d_output) by (
        nonlinear_arith);
    }
    let w1 = l1.d_input * l1.d_output;
    let c1 = w1 + l1.d_output;
    let w2 = l2.d_input * l2.d_output;
    let c2 = w2 + l2.d_output;
    PARAM_BYTE_SIZE * (c1 + c2)
}

impl Cifar10Model {
    /// The parameter payload is exactly as long as the shapes demand.
    pub open spec fn wf(&self) -> bool {
        self.params@.len() == spec_param_bytes(self.linear1, self.linear2)
    }

    /// Restores persisted parameters into this freshly-initialized model.
    ///
    /// Succeeds exactly when the snapshot's shapes equal the model's shapes;
    /// a mismatch fails with both sets of shapes, and never reshapes,
    /// truncates, or pads the payload.
    pub fn load_record(self, record: ModelRecord) -> (r: Result<
        Cifar10Model,
        ShapeMismatchError,
    >)
        requires
            record.wf(),
        ensures
            r is Ok <==> (record.linear1 == self.linear1 && record.linear2 == self.linear2),
            r matches Ok(m) ==> m.linear1 == self.linear1 && m.linear2 == self.linear2
                && m.params@ == record.params@ && m.wf(),
            r matches Err(e) ==> e == (ShapeMismatchError {
                expected_linear1: self.linear1,
                expected_linear2: self.linear2,
                found_linear1: record.linear1,
                found_linear2: record.linear2,
            }),
    {
        if record.linear1 == self.linear1 && record.linear2 == self.linear2 {
            Ok(Cifar10Model { linear1: self.linear1, linear2: self.linear2, params: record.params })
        } else {
            Err(ShapeMismatchError {
                expected_linear1: self.linear1,
                expected_linear2: self.linear2,
                found_linear1: record.linear1,
                found_linear2: record.linear2,
            })
        }
    }

    /// Snapshots the model's parameters for persistence.
    pub fn into_record(self) -> (r: ModelRecord)
        requires
            self.wf(),
        ensures
            r.linear1 == self.linear1,
            r.linear2 == self.linear2,
            r.params@ == self.params@,
            r.wf(),
    {
        ModelRecord { linear1: self.linear1, linear2: self.linear2, params: self.params }
    }
}

} // verus!
