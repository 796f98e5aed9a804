//! The CIFAR-10 binary record format: fixed 3073-byte records (one label
//! byte, then 3072 image bytes laid out channel-major), parsed into labeled
//! items, assembled into datasets, and collated into batches.

use vstd::prelude::*;

verus! {

/// Number of image payload bytes per record: 3 channels over a 32 x 32 grid.
pub const IMAGE_BYTE_SIZE: usize = 3072;

/// Number of label bytes per record.
pub const LABEL_BYTE_SIZE: usize = 1;

/// Total bytes per record: the label byte followed by the image bytes.
pub const RECORD_BYTE_SIZE: usize = 3073;

/// A dataset file whose length is not an exact multiple of the record size.
#[derive(Clone, Copy, Debug, PartialEq, Eq, Structural)]
pub struct FormatError {
    /// The record size the file length must be a multiple of.
    pub expected_multiple: usize,
    /// The offending file's actual byte length.
    pub actual_len: usize,
}

/// One labeled image record, parsed from a dataset file.
#[derive(Debug)]
pub struct Cifar10Item {
    /// 3072 bytes, channel-major: 1024 red, then 1024 green, then 1024 blue,
    /// each channel row-major over a 32 x 32 grid.
    pub image: Vec<u8>,
    /// The class label byte.
    pub label: u8,
}

/// The mathematical model of one record: a label and an image byte sequence.
pub ghost struct ItemView {
    pub label: u8,
    pub image: Seq<u8>,
}

impl ItemView {
    /// A well-formed record model carries exactly one image payload.
    pub open spec fn wf(self) -> bool {
        self.image.len() == IMAGE_BYTE_SIZE
    }
}

impl View for Cifar10Item {
    type V = ItemView;

    open spec fn view(&self) -> ItemView {
        ItemView { label: self.label, image: self.image@ }
    }
}

impl Cifar10Item {
    pub open spec fn wf(&self) -> bool {
        self@.wf()
    }
}

impl Clone for Cifar10Item {
    fn clone(&self) -> (r: Self)
        ensures
            r@ == self@,
    {
        let r = Cifar10Item { image: self.image.clone(), label: self.label };
        proof {
            assert(r.image@ =~= self.image@);
        }
        r
    }
}

/// The records encoded in `buf`, assuming `buf` splits evenly into
/// 3073-byte chunks: record `i` is chunk `i`, its first byte the label and
/// the remaining 3072 bytes the image, copied verbatim.
pub open spec fn spec_parse_records(buf: Seq<u8>) -> Seq<ItemView> {
    Seq::new(
        (buf.len() as int / RECORD_BYTE_SIZE as int) as nat,
        |i: int|
            ItemView {
                label: buf[i * RECORD_BYTE_SIZE as int],
                image: buf.subrange(
                    i * RECORD_BYTE_SIZE as int + 1,
                    (i + 1) * RECORD_BYTE_SIZE as int,
                ),
            },
    )
}

/// The models of a sequence of parsed items.
pub open spec fn item_views(items: Seq<Cifar10Item>) -> Seq<ItemView> {
    Seq::new(items.len(), |i: int| items[i]@)
}

impl Cifar10Dataset {
    /// Partitions the raw bytes of one dataset file into labeled records.
    ///
    /// Succeeds exactly when the length is a multiple of the record size;
    /// otherwise reports the record size and the offending length.
    pub fn read_binary_file(buffer: &Vec<u8>) -> (r: Result<
        Vec<Cifar10Item>,
        FormatError,
    >)
        ensures
            r is Ok <==> buffer@.len() % RECORD_BYTE_SIZE as nat == 0,
            r matches Ok(items) ==> item_views(items@) == spec_parse_records(buffer@),
            r matches Err(e) ==> e == (FormatError {
                expected_multiple: RECORD_BYTE_SIZE,
                actual_len: buffer.len(),
            }),
    {
        let n = buffer.len();
        if n % RECORD_BYTE_SIZE != 0 {
            return Err(FormatError { expected_multiple: RECORD_BYTE_SIZE, actual_len: n });
        }
        let count = n / RECORD_BYTE_SIZE;
        assert(count * RECORD_BYTE_SIZE as int == n) by {
            vstd::arithmetic::div_mod::lemma_fundamental_div_mod(
                n as int,
                RECORD_BYTE_SIZE as int,
            );
        };
        let mut items: Vec<Cifar10Item> = Vec::new();
        let mut i: usize = 0;
        while i < count
            invariant
                count * RECORD_BYTE_SIZE as int == n,
                n == buffer@.len(),
                i <= count,
                items@.len() == i,
                forall|k: int| 0 <= k < i ==> #[trigger] items@[k]@ == spec_parse_records(
                    buffer@,
                )[k],
            decreases count - i,
        {
            assert((i + 1) * RECORD_BYTE_SIZE as int <= count * RECORD_BYTE_SIZE as int) by (
            nonlinear_arith)
                requires
                    i < count,
            ;
            let base = i * RECORD_BYTE_SIZE;
            let label = buffer[base];
            let mut image: Vec<u8> = Vec::new();
            let mut j: usize = 0;
            while j < IMAGE_BYTE_SIZE
                invariant
                    j <= IMAGE_BYTE_SIZE,
                    base + RECORD_BYTE_SIZE <= n,
                    n == buffer@.len(),
                    image@ =~= buffer@.subrange(base as int + 1, base as int + 1 + j as int),
                decreases IMAGE_BYTE_SIZE - j,
            {
                image.push(buffer[base + 1 + j]);
                j += 1;
            }
            items.push(Cifar10Item { image, label });
            i += 1;
        }
        proof {
            assert(item_views(items@) =~= spec_parse_records(buffer@));
        }
        Ok(items)
    }
}

/// The bytes that encode one record: the label byte, then the image bytes.
pub open spec fn spec_serialize_item(item: ItemView) -> Seq<u8> {
    seq![item.label] + item.image
}

/// The bytes that encode a sequence of records, one fixed-size chunk each,
/// in order.
pub open spec fn spec_serialize(items: Seq<ItemView>) -> Seq<u8>
    decreases items.len(),
{
    if items.len() == 0 {
        Seq::empty()
    } else {
        spec_serialize_item(items[0]) + spec_serialize(items.drop_first())
    }
}

/// Appending one record to a batch of records appends its chunk to the
/// encoding.
proof fn lemma_spec_serialize_push(items: Seq<ItemView>, item: ItemView)
    ensures
        spec_serialize(items.push(item)) == spec_serialize(items) + spec_serialize_item(item),
    decreases items.len(),
{
    if items.len() == 0 {
        assert(items.push(item).drop_first() =~= Seq::<ItemView>::empty());
        assert(spec_serialize(items.push(item)) == spec_serialize_item(items.push(item)[0])
            + spec_serialize(items.push(item).drop_first()));
        assert(spec_serialize(items.push(item).drop_first()) == Seq::<u8>::empty());
        assert(spec_serialize(items.push(item)) =~= spec_serialize(items) + spec_serialize_item(
            item,
        ));
    } else {
        assert(items.push(item).drop_first() =~= items.drop_first().push(item));
        lemma_spec_serialize_push(items.drop_first(), item);
        assert(spec_serialize(items.push(item)) =~= spec_serialize(items) + spec_serialize_item(
            item,
        ));
    }
}

/// Parsing a buffer of whole records and re-serializing the records
/// reproduces the buffer exactly.
pub proof fn lemma_parse_then_serialize(buf: Seq<u8>)
    requires
        buf.len() % RECORD_BYTE_SIZE as nat == 0,
    ensures
        spec_serialize(spec_parse_records(buf)) == buf,
    decreases buf.len(),
{
    let rs = RECORD_BYTE_SIZE as int;
    let c = buf.len() as int / rs;
    vstd::arithmetic::div_mod::lemma_fundamental_div_mod(buf.len() as int, rs);
    if buf.len() == 0 {
        assert(spec_parse_records(buf).len() == 0);
        assert(spec_serialize(spec_parse_records(buf)) =~= buf);
    } else {
        let rest = buf.skip(rs);
        assert(rest.len() == rs * c - rs);
        assert(rs * c - rs == rs * (c - 1)) by (nonlinear_arith);
        vstd::arithmetic::div_mod::lemma_mod_multiples_basic(c - 1, rs);
        assert(rest.len() % RECORD_BYTE_SIZE as nat == 0);
        lemma_parse_then_serialize(rest);
        vstd::arithmetic::div_mod::lemma_div_by_multiple(c - 1, rs);
        assert(rest.len() as int / rs == c - 1);
        let parsed = spec_parse_records(buf);
        assert(parsed.drop_first() =~= spec_parse_records(rest)) by {
            assert forall|i: int| 0 <= i < c - 1 implies parsed.drop_first()[i]
                == spec_parse_records(rest)[i] by {
                assert(parsed[i + 1].label == buf[(i + 1) * rs]);
                assert(spec_parse_records(rest)[i].image =~= parsed[i + 1].image);
            }
        }
        assert(spec_serialize_item(parsed[0]) =~= buf.take(rs));
        assert(spec_serialize(parsed) =~= buf.take(rs) + rest);
        assert(buf.take(rs) + rest =~= buf);
    }
}

/// An ordered, immutable sequence of labeled records, indexed from zero.
///
/// Construction succeeds only when every source buffer splits evenly into
/// whole records; no partial dataset is ever produced.
#[derive(Clone, Debug)]
pub struct Cifar10Dataset {
    items: Vec<Cifar10Item>,
}

impl View for Cifar10Dataset {
    type V = Seq<ItemView>;

    closed spec fn view(&self) -> Seq<ItemView> {
        item_views(self.items@)
    }
}

/// Number of training source files; their records are concatenated in file
/// order.
pub const TRAIN_FILE_COUNT: usize = 5;

/// The records of a sequence of file buffers, concatenated in file order.
pub open spec fn spec_parse_concat(bufs: Seq<Seq<u8>>) -> Seq<ItemView>
    decreases bufs.len(),
{
    if bufs.len() == 0 {
        Seq::empty()
    } else {
        spec_parse_records(bufs[0]) + spec_parse_concat(bufs.drop_first())
    }
}

/// Concatenated parses grow one file at a time.
proof fn lemma_spec_parse_concat_take(bufs: Seq<Seq<u8>>, k: int)
    requires
        0 <= k < bufs.len(),
    ensures
        spec_parse_concat(bufs.take(k + 1)) == spec_parse_concat(bufs.take(k))
            + spec_parse_records(bufs[k]),
    decreases k,
{
    if k == 0 {
        assert(bufs.take(1).drop_first() =~= Seq::<Seq<u8>>::empty());
        assert(bufs.take(1)[0] == bufs[0]);
        assert(spec_parse_concat(bufs.take(1)) == spec_parse_records(bufs.take(1)[0])
            + spec_parse_concat(bufs.take(1).drop_first()));
        assert(spec_parse_concat(bufs.take(1).drop_first()) == Seq::<ItemView>::empty());
        assert(spec_parse_concat(bufs.take(0)) == Seq::<ItemView>::empty());
        assert(spec_parse_concat(bufs.take(1)) =~= spec_parse_concat(bufs.take(0))
            + spec_parse_records(bufs[0]));
    } else {
        let tail = bufs.drop_first();
        assert(bufs.take(k + 1).drop_first() =~= tail.take(k));
        assert(bufs.take(k).drop_first() =~= tail.take(k - 1));
        lemma_spec_parse_concat_take(tail, k - 1);
        assert(spec_parse_concat(bufs.take(k + 1)) =~= spec_parse_concat(bufs.take(k))
            + spec_parse_records(bufs[k]));
    }
}

impl Cifar10Dataset {
    /// Every record a dataset holds carries a full-size image.
    pub open spec fn wf(&self) -> bool {
        forall|i: int| 0 <= i < self@.len() ==> (#[trigger] self@[i]).wf()
    }

    /// Every record a parse yields carries a full-size image.
    proof fn lemma_parse_records_wf(buf: Seq<u8>)
        requires
            buf.len() % RECORD_BYTE_SIZE as nat == 0,
        ensures
            forall|i: int|
                0 <= i < spec_parse_records(buf).len() ==> (#[trigger] spec_parse_records(
                    buf,
                )[i]).wf(),
    {
        let rs = RECORD_BYTE_SIZE as int;
        let c = buf.len() as int / rs;
        vstd::arithmetic::div_mod::lemma_fundamental_div_mod(buf.len() as int, rs);
        assert forall|i: int| 0 <= i < c implies (#[trigger] spec_parse_records(buf)[i]).wf() by {
            assert((i + 1) * rs <= c * rs) by (nonlinear_arith)
                requires
                    i < c,
                    0 < rs,
            ;
        }
    }

    /// Builds the training split from the five training file buffers, in
    /// file order. Succeeds exactly when every buffer splits evenly into
    /// whole records; otherwise reports the first offending buffer's length.
    pub fn train(buffers: &Vec<Vec<u8>>) -> (r: Result<Cifar10Dataset, FormatError>)
        requires
            buffers@.len() == TRAIN_FILE_COUNT,
        ensures
            r is Ok <==> (forall|k: int|
                0 <= k < buffers@.len() ==> #[trigger] buffers@[k]@.len() % RECORD_BYTE_SIZE as nat
                    == 0),
            r matches Ok(ds) ==> ds@ == spec_parse_concat(buffers.deep_view()) && ds.wf(),
            r matches Err(e) ==> exists|k: int|
                0 <= k < buffers@.len() && #[trigger] buffers@[k]@.len() % RECORD_BYTE_SIZE as nat
                    != 0 && (forall|j: int|
                    0 <= j < k ==> #[trigger] buffers@[j]@.len() % RECORD_BYTE_SIZE as nat == 0)
                    && e == (FormatError {
                    expected_multiple: RECORD_BYTE_SIZE,
                    actual_len: buffers@[k]@.len() as usize,
                }),
    {
        let mut items: Vec<Cifar10Item> = Vec::new();
        let mut k: usize = 0;
        while k < buffers.len()
            invariant
                buffers@.len() == TRAIN_FILE_COUNT,
                k <= buffers@.len(),
                forall|j: int|
                    0 <= j < k ==> #[trigger] buffers@[j]@.len() % RECORD_BYTE_SIZE as nat == 0,
                item_views(items@) == spec_parse_concat(buffers.deep_view().take(k as int)),
                forall|i: int| 0 <= i < items@.len() ==> (#[trigger] items@[i]).wf(),
            decreases buffers@.len() - k,
        {
            let ghost prev = items@;
            match Self::read_binary_file(&buffers[k]) {
                Ok(mut parsed) => {
                    proof {
                        Self::lemma_parse_records_wf(buffers@[k as int]@);
                        lemma_spec_parse_concat_take(buffers.deep_view(), k as int);
                        assert(buffers.deep_view()[k as int] == buffers@[k as int]@);
                    }
                    let ghost parsed_snap = parsed@;
                    items.append(&mut parsed);
                    proof {
                        assert(item_views(items@) =~= item_views(prev) + item_views(parsed_snap));
                        assert forall|i: int| 0 <= i < items@.len() implies (
                        #[trigger] items@[i]).wf() by {
                            if i >= prev.len() {
                                assert(items@[i]@ == item_views(parsed_snap)[i - prev.len()]);
                                assert(items@[i]@ == spec_parse_records(buffers@[k as int]@)[i
                                    - prev.len()]);
                            }
                        }
                        assert(buffers.deep_view().take(k as int + 1) =~= buffers.deep_view().take(
                            k as int,
                        ).push(buffers.deep_view()[k as int]));
                        assert(item_views(items@) =~= spec_parse_concat(
                            buffers.deep_view().take(k as int + 1),
                        ));
                    }
                },
                Err(e) => {
                    return Err(e);
                },
            }
            k += 1;
        }
        proof {
            assert(buffers.deep_view().take(buffers@.len() as int) =~= buffers.deep_view());
        }
        Ok(Cifar10Dataset { items })
    }

    /// Builds the test split from the single test file buffer. Succeeds
    /// exactly when the buffer splits evenly into whole records.
    pub fn test(buffer: &Vec<u8>) -> (r: Result<Cifar10Dataset, FormatError>)
        ensures
            r is Ok <==> buffer@.len() % RECORD_BYTE_SIZE as nat == 0,
            r matches Ok(ds) ==> ds@ == spec_parse_records(buffer@) && ds.wf(),
            r matches Err(e) ==> e == (FormatError {
                expected_multiple: RECORD_BYTE_SIZE,
                actual_len: buffer.len(),
            }),
    {
        match Self::read_binary_file(buffer) {
            Ok(items) => {
                proof {
                    Self::lemma_parse_records_wf(buffer@);
                }
                Ok(Cifar10Dataset { items })
            },
            Err(e) => Err(e),
        }
    }

    /// The record at `index`, or `None` when `index` is out of range;
    /// absence is recoverable by the caller, never fatal.
    pub fn get(&self, index: usize) -> (r: Option<Cifar10Item>)
        ensures
            r is Some <==> index < self@.len(),
            r matches Some(item) ==> item@ == self@[index as int],
    {
        if index < self.items.len() {
            Some(self.items[index].clone())
        } else {
            None
        }
    }

    /// Total record count.
    pub fn len(&self) -> (r: usize)
        ensures
            r == self@.len(),
    {
        self.items.len()
    }
}

/// Re-encodes records into the binary file format: one fixed-size chunk per
/// record, label byte first, image bytes verbatim.
pub fn serialize_records(items: &Vec<Cifar10Item>) -> (r: Vec<u8>)
    requires
        forall|i: int| 0 <= i < items@.len() ==> (#[trigger] items@[i]).wf(),
        items@.len() * RECORD_BYTE_SIZE <= usize::MAX,
    ensures
        r@ == spec_serialize(item_views(items@)),
{
    let mut out: Vec<u8> = Vec::new();
    let mut i: usize = 0;
    while i < items.len()
        invariant
            forall|k: int| 0 <= k < items@.len() ==> (#[trigger] items@[k]).wf(),
            items@.len() * RECORD_BYTE_SIZE <= usize::MAX,
            i <= items@.len(),
            out@ == spec_serialize(item_views(items@).take(i as int)),
            out@.len() == i * RECORD_BYTE_SIZE,
        decreases items@.len() - i,
    {
        assert((i + 1) * RECORD_BYTE_SIZE as int <= items@.len() * RECORD_BYTE_SIZE as int) by (
        nonlinear_arith)
            requires
                i < items@.len(),
        ;
        let item = &items[i];
        out.push(item.label);
        let mut j: usize = 0;
        while j < item.image.len()
            invariant
                item.wf(),
                j <= IMAGE_BYTE_SIZE,
                out@ == spec_serialize(item_views(items@).take(i as int)) + seq![item@.label]
                    + item@.image.take(j as int),
            decreases item.image.len() - j,
        {
            out.push(item.image[j]);
            proof {
                assert(item@.image.take(j + 1) =~= item@.image.take(j as int).push(
                    item@.image[j as int],
                ));
                assert(out@ =~= spec_serialize(item_views(items@).take(i as int)) + seq![
                    item@.label,
                ] + item@.image.take(j + 1));
            }
            j += 1;
        }
        proof {
            lemma_spec_serialize_push(item_views(items@).take(i as int), item@);
            assert(item_views(items@).take(i + 1) =~= item_views(items@).take(i as int).push(
                item@,
            ));
            assert(item@.image.take(IMAGE_BYTE_SIZE as int) =~= item@.image);
            assert(out@ =~= spec_serialize(item_views(items@).take(i + 1)));
        }
        i += 1;
    }
    proof {
        assert(item_views(items@).take(items@.len() as int) =~= item_views(items@));
    }
    out
}

/// One collated batch, modelled as plain values.
///
/// `images` is the flattened [batch_size, 3, 32, 32] tensor in row-major
/// order: entry `i * 3072 + c * 1024 + y * 32 + x` belongs to batch row `i`,
/// channel `c`, grid cell `(y, x)`. Each entry is the raw byte `b`, the exact
/// numerator of the engine's normalized float value `b / 255.0` in
/// [0.0, 1.0]; the division itself is the tensor engine's floating-point
/// step.
///
/// `targets` holds the label of each batch row, widened to a signed integer.
#[derive(Clone, Debug)]
pub struct Cifar10Batch {
    pub images: Vec<u8>,
    pub targets: Vec<i64>,
}

impl Cifar10Batch {
    /// The leading dimension shared by `images` and `targets`.
    pub open spec fn batch_size(&self) -> nat {
        self.targets@.len()
    }

    /// The image tensor carries exactly one full image per batch row.
    pub open spec fn wf(&self) -> bool {
        self.images@.len() == self.batch_size() * IMAGE_BYTE_SIZE
    }
}

/// Collates selected records into one batch; deterministic and
/// side-effect-free, for a single item as well as for many.
#[derive(Clone, Copy)]
pub struct Cifar10Batcher;

impl Default for Cifar10Batcher {
    fn default() -> (r: Self)
        ensures
            r == (Cifar10Batcher {  }),
    {
        Cifar10Batcher {  }
    }
}

impl Cifar10Batcher {
    /// Stacks the items' image bytes and labels in input order: batch row
    /// `i` is derived from item `i` alone, its image copied verbatim and its
    /// label widened to a signed integer.
    pub fn batch(&self, items: &Vec<Cifar10Item>) -> (r: Cifar10Batch)
        requires
            forall|i: int| 0 <= i < items@.len() ==> (#[trigger] items@[i]).wf(),
            items@.len() * IMAGE_BYTE_SIZE <= usize::MAX,
        ensures
            r.wf(),
            r.batch_size() == items@.len(),
            r.images@.len() == items@.len() * IMAGE_BYTE_SIZE,
            forall|i: int|
                0 <= i < items@.len() ==> #[trigger] r.targets@[i] == items@[i]@.label as i64,
            forall|i: int, j: int|
                0 <= i < items@.len() && 0 <= j < IMAGE_BYTE_SIZE ==> r.images@[i
                    * IMAGE_BYTE_SIZE + j] == #[trigger] items@[i]@.image[j],
    {
        let mut images: Vec<u8> = Vec::new();
        let mut targets: Vec<i64> = Vec::new();
        let mut i: usize = 0;
        while i < items.len()
            invariant
                forall|k: int| 0 <= k < items@.len() ==> (#[trigger] items@[k]).wf(),
                items@.len() * IMAGE_BYTE_SIZE <= usize::MAX,
                i <= items@.len(),
                targets@.len() == i,
                images@.len() == i * IMAGE_BYTE_SIZE,
                forall|k: int| 0 <= k < i ==> #[trigger] targets@[k] == items@[k]@.label as i64,
                forall|k: int, j: int|
                    0 <= k < i && 0 <= j < IMAGE_BYTE_SIZE ==> images@[k * IMAGE_BYTE_SIZE + j]
                        == #[trigger] items@[k]@.image[j],
            decreases items@.len() - i,
        {
            assert((i + 1) * IMAGE_BYTE_SIZE as int <= items@.len() * IMAGE_BYTE_SIZE as int) by (
            nonlinear_arith)
                requires
                    i < items@.len(),
            ;
            let item = &items[i];
            targets.push(item.label as i64);
            let mut j: usize = 0;
            while j < item.image.len()
                invariant
                    item.wf(),
                    item@ == items@[i as int]@,
                    i < items@.len(),
                    j <= IMAGE_BYTE_SIZE,
                    images@.len() == i * IMAGE_BYTE_SIZE + j,
                    (i + 1) * IMAGE_BYTE_SIZE as int <= items@.len() * IMAGE_BYTE_SIZE as int,
                    items@.len() * IMAGE_BYTE_SIZE <= usize::MAX,
                    forall|k: int, l: int|
                        0 <= k < i && 0 <= l < IMAGE_BYTE_SIZE ==> images@[k * IMAGE_BYTE_SIZE + l]
                            == #[trigger] items@[k]@.image[l],
                    forall|l: int|
                        0 <= l < j ==> images@[i as int * IMAGE_BYTE_SIZE + l]
                            == #[trigger] item@.image[l],
                decreases item.image.len() - j,
            {
                images.push(item.image[j]);
                j += 1;
            }
            i += 1;
        }
        Cifar10Batch { images, targets }
    }
}

} // verus!
