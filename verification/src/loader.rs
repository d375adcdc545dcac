//! The higher-level loading step: pair an image container with a label
//! container, check that they fit together, and cut the image payload
//! into one sample per declared image.

use vstd::prelude::*;
use crate::bytes::{be_u32_at, be_bytes_of, copy_range};
use crate::container::{
    MnistData, MnistHeader, LoadError, container_of, gunzip_ok, gunzipped, LABEL_MAGIC,
    IMAGE_MAGIC, lemma_bad_magic_is_fatal,
};

verus! {

/// One labeled sample: the raw pixel bytes of a (rows * cols, 1) column
/// image and its class label. A pixel byte `p` stands for the intensity
/// `p / 255`; callers that want floating-point pixels divide when they
/// convert.
#[derive(Debug, Clone, PartialEq)]
pub struct MnistImage {
    /// Raw pixel bytes in row-major order; length rows * cols.
    pub image: Vec<u8>,
    /// The class id, taken verbatim from the label file.
    pub classification: u8,
}

impl View for MnistImage {
    type V = (Seq<u8>, u8);

    open spec fn view(&self) -> (Seq<u8>, u8) {
        (self.image@, self.classification)
    }
}

/// The view of a dataset: each sample as its (pixel bytes, label) pair.
pub open spec fn dataset_view(ds: Seq<MnistImage>) -> Seq<(Seq<u8>, u8)> {
    ds.map_values(|s: MnistImage| s@)
}

/// The samples cut out of an image payload and a label payload: sample
/// `i` holds the `shape` bytes that start at `i * shape`, and label `i`.
pub open spec fn samples_of(idata: Seq<u8>, ldata: Seq<u8>, count: int, shape: int) -> Seq<
    (Seq<u8>, u8),
>
    recommends
        0 <= count,
        0 <= shape,
        idata.len() == count * shape,
        ldata.len() == count,
{
    Seq::new(count as nat, |i: int| (idata.subrange(i * shape, i * shape + shape), ldata[i]))
}

/// The dataset that a pair of decoded containers yields once the
/// consistency checks pass, or the first check's error: the containers
/// must be of the right kinds, no declared size may be negative (sign
/// bit set), an image may not be empty, the two declared counts must
/// agree, and each payload must have exactly its declared length.
pub open spec fn dataset_of(
    images: (MnistHeader, Seq<u8>),
    labels: (MnistHeader, Seq<u8>),
) -> Result<Seq<(Seq<u8>, u8)>, LoadError> {
    match (labels.0, images.0) {
        (
            MnistHeader::Labels { count: lcount },
            MnistHeader::Images { count, rows, cols },
        ) => {
            if lcount > 0x7fffffff || count > 0x7fffffff || rows > 0x7fffffff
                || cols > 0x7fffffff {
                Err(LoadError::NegativeSize)
            } else if rows == 0 || cols == 0 {
                Err(LoadError::ZeroDimension)
            } else if lcount != count {
                Err(LoadError::CountMismatch)
            } else if labels.1.len() != count {
                Err(LoadError::PayloadSize)
            } else if images.1.len() != count * rows * cols {
                Err(LoadError::PayloadSize)
            } else {
                Ok(samples_of(images.1, labels.1, count as int, rows as int * cols as int))
            }
        },
        _ => Err(LoadError::WrongKind),
    }
}

/// What loading a pair of gzip streams yields: the label file is decoded
/// first, then the image file, then the pair is checked and cut into
/// samples.
pub open spec fn load_spec(images_gz: Seq<u8>, labels_gz: Seq<u8>) -> Result<
    Seq<(Seq<u8>, u8)>,
    LoadError,
> {
    if !gunzip_ok(labels_gz) {
        Err(LoadError::Gzip)
    } else {
        match container_of(gunzipped(labels_gz)) {
            Err(e) => Err(e),
            Ok(labels) => if !gunzip_ok(images_gz) {
                Err(LoadError::Gzip)
            } else {
                match container_of(gunzipped(images_gz)) {
                    Err(e) => Err(e),
                    Ok(images) => dataset_of(images, labels),
                }
            },
        }
    }
}

/// Checks that an image container and a label container fit together and
/// cuts them into samples, as `dataset_of` says.
pub fn build_dataset(images: &MnistData, labels: &MnistData) -> (r: Result<
    Vec<MnistImage>,
    LoadError,
>)
    ensures
        match r {
            Ok(ds) => dataset_of((images.header, images.data@), (labels.header, labels.data@))
                == Ok::<_, LoadError>(dataset_view(ds@)),
            Err(e) => dataset_of((images.header, images.data@), (labels.header, labels.data@))
                == Err::<Seq<(Seq<u8>, u8)>, _>(e),
        },
{
    let lcount = match labels.header {
        MnistHeader::Labels { count } => count,
        _ => {
            return Err(LoadError::WrongKind);
        },
    };
    let (count, rows, cols) = match images.header {
        MnistHeader::Images { count, rows, cols } => (count, rows, cols),
        _ => {
            return Err(LoadError::WrongKind);
        },
    };
    if lcount > 0x7fffffff || count > 0x7fffffff || rows > 0x7fffffff || cols > 0x7fffffff {
        return Err(LoadError::NegativeSize);
    }
    if rows == 0 || cols == 0 {
        return Err(LoadError::ZeroDimension);
    }
    if lcount != count {
        return Err(LoadError::CountMismatch);
    }
    if labels.data.len() != count as usize {
        return Err(LoadError::PayloadSize);
    }
    proof {
        assert(rows as int * cols as int <= 0x7fffffff * 0x7fffffff) by (nonlinear_arith)
            requires
                0 <= rows as int <= 0x7fffffff,
                0 <= cols as int <= 0x7fffffff,
        ;
    }
    let rc: u64 = (rows as u64) * (cols as u64);
    proof {
        assert(count as int * rc as int <= 0x7fffffff * 0x3fffffff00000001) by (nonlinear_arith)
            requires
                0 <= count as int <= 0x7fffffff,
                0 <= rc as int <= 0x3fffffff00000001,
        ;
        assert(count as int * rc as int == count as int * rows as int * cols as int)
            by (nonlinear_arith)
            requires
                rc as int == rows as int * cols as int,
        ;
    }
    let total: u128 = (count as u128) * (rc as u128);
    let ilen = images.data.len();
    if ilen as u128 != total {
        return Err(LoadError::PayloadSize);
    }
    if count == 0 {
        let ds: Vec<MnistImage> = Vec::new();
        proof {
            assert(dataset_view(ds@) =~= samples_of(
                images.data@,
                labels.data@,
                count as int,
                rows as int * cols as int,
            ));
        }
        return Ok(ds);
    }
    proof {
        assert(rc as int <= count as int * rc as int) by (nonlinear_arith)
            requires
                1 <= count as int,
                0 <= rc as int,
        ;
        assert(1 <= rc as int) by (nonlinear_arith)
            requires
                1 <= rows as int,
                1 <= cols as int,
                rc as int == rows as int * cols as int,
        ;
    }
    let shape: usize = rc as usize;
    let count_n: usize = count as usize;
    let mut ds: Vec<MnistImage> = Vec::new();
    let mut i: usize = 0;
    while i < count_n
        invariant
            i <= count_n,
            count_n == count as int,
            count <= 0x7fffffff,
            1 <= shape as int,
            shape as int == rows as int * cols as int,
            ilen as int == images.data@.len(),
            images.data@.len() == count as int * shape as int,
            labels.data@.len() == count as int,
            ds@.len() == i as int,
            forall|k: int|
                0 <= k < i as int ==> (#[trigger] ds@[k])@ == (
                    images.data@.subrange(k * shape as int, k * shape as int + shape as int),
                    labels.data@[k],
                ),
        decreases count_n - i,
    {
        proof {
            assert((i as int + 1) * shape as int <= count as int * shape as int && i as int
                * shape as int + shape as int == (i as int + 1) * shape as int && 0 <= i as int
                * shape as int) by (nonlinear_arith)
                requires
                    0 <= i as int,
                    i as int + 1 <= count as int,
                    1 <= shape as int,
            ;
        }
        let start = i * shape;
        let image = copy_range(&images.data, start, shape);
        let classification = labels.data[i];
        ds.push(MnistImage { image, classification });
        i += 1;
    }
    proof {
        let ideal = samples_of(
            images.data@,
            labels.data@,
            count as int,
            rows as int * cols as int,
        );
        assert forall|k: int| 0 <= k < count as int implies dataset_view(ds@)[k] == ideal[k] by {
            assert(dataset_view(ds@)[k] == ds@[k]@);
        }
        assert(dataset_view(ds@) =~= ideal);
    }
    Ok(ds)
}

/// Loads a matched pair of gzip-compressed image and label files, handed
/// in as byte buffers, into the ordered dataset that `load_spec` says
/// they decode to.
pub fn load_data(images_gz: &Vec<u8>, labels_gz: &Vec<u8>) -> (r: Result<
    Vec<MnistImage>,
    LoadError,
>)
    ensures
        match r {
            Ok(ds) => load_spec(images_gz@, labels_gz@) == Ok::<_, LoadError>(dataset_view(ds@)),
            Err(e) => load_spec(images_gz@, labels_gz@) == Err::<Seq<(Seq<u8>, u8)>, _>(e),
        },
{
    let labels = match MnistData::new(labels_gz) {
        Ok(d) => d,
        Err(e) => {
            return Err(e);
        },
    };
    let images = match MnistData::new(images_gz) {
        Ok(d) => d,
        Err(e) => {
            return Err(e);
        },
    };
    build_dataset(&images, &labels)
}

/// The bytes of a synthetic image file before compression: the image
/// magic, then count, rows and cols as big-endian fields, then the
/// payload.
pub open spec fn image_container_bytes(
    count: u32,
    rows: u32,
    cols: u32,
    payload: Seq<u8>,
) -> Seq<u8> {
    be_bytes_of(IMAGE_MAGIC) + be_bytes_of(count) + be_bytes_of(rows) + be_bytes_of(cols)
        + payload
}

/// The bytes of a synthetic label file before compression: the label
/// magic, then count as a big-endian field, then one byte per label.
pub open spec fn label_container_bytes(count: u32, labels: Seq<u8>) -> Seq<u8> {
    be_bytes_of(LABEL_MAGIC) + be_bytes_of(count) + labels
}

/// Decoding inverts construction for label files: the container built
/// from a count and a label payload decodes back to exactly them.
pub proof fn lemma_parse_label_container(count: u32, labels: Seq<u8>)
    ensures
        container_of(label_container_bytes(count, labels)) == Ok::<_, LoadError>(
            (MnistHeader::Labels { count }, labels),
        ),
{
    let b = label_container_bytes(count, labels);
    crate::bytes::lemma_be_round_trip(LABEL_MAGIC);
    crate::bytes::lemma_be_round_trip(count);
    assert(be_u32_at(b, 0) == LABEL_MAGIC);
    assert(be_u32_at(b, 4) == count);
    assert(b.skip(8) =~= labels);
}

/// Decoding inverts construction for image files: the container built
/// from a size header and a payload decodes back to exactly them.
pub proof fn lemma_parse_image_container(count: u32, rows: u32, cols: u32, payload: Seq<u8>)
    ensures
        container_of(image_container_bytes(count, rows, cols, payload)) == Ok::<_, LoadError>(
            (MnistHeader::Images { count, rows, cols }, payload),
        ),
{
    let b = image_container_bytes(count, rows, cols, payload);
    crate::bytes::lemma_be_round_trip(IMAGE_MAGIC);
    crate::bytes::lemma_be_round_trip(count);
    crate::bytes::lemma_be_round_trip(rows);
    crate::bytes::lemma_be_round_trip(cols);
    assert(be_u32_at(b, 0) == IMAGE_MAGIC);
    assert(be_u32_at(b, 4) == count);
    assert(be_u32_at(b, 8) == rows);
    assert(be_u32_at(b, 12) == cols);
    assert(b.skip(16) =~= payload);
}

/// Round trip: a pair of gzip streams that inflate to a synthetic image
/// container and a consistent synthetic label container loads to
/// exactly the samples cut from the two payloads.
pub proof fn lemma_load_round_trip(
    images_gz: Seq<u8>,
    labels_gz: Seq<u8>,
    count: u32,
    rows: u32,
    cols: u32,
    payload: Seq<u8>,
    labels: Seq<u8>,
)
    requires
        gunzip_ok(images_gz),
        gunzipped(images_gz) == image_container_bytes(count, rows, cols, payload),
        gunzip_ok(labels_gz),
        gunzipped(labels_gz) == label_container_bytes(count, labels),
        count <= 0x7fffffff,
        1 <= rows <= 0x7fffffff,
        1 <= cols <= 0x7fffffff,
        payload.len() == count * rows * cols,
        labels.len() == count,
    ensures
        load_spec(images_gz, labels_gz) == Ok::<_, LoadError>(
            samples_of(payload, labels, count as int, rows as int * cols as int),
        ),
{
    lemma_parse_label_container(count, labels);
    lemma_parse_image_container(count, rows, cols, payload);
}

/// Each loaded sample holds its own slice of the image payload and its
/// own label byte: sample `i` has `shape` pixel bytes, pixel `j` of
/// sample `i` is payload byte `i * shape + j`, and the classification
/// of sample `i` is label byte `i`, unmodified.
pub proof fn lemma_sample_bytes(idata: Seq<u8>, ldata: Seq<u8>, count: int, shape: int, i: int)
    requires
        0 <= i < count,
        0 <= shape,
        idata.len() == count * shape,
        ldata.len() == count,
    ensures
        samples_of(idata, ldata, count, shape).len() == count,
        samples_of(idata, ldata, count, shape)[i].0.len() == shape,
        samples_of(idata, ldata, count, shape)[i].1 == ldata[i],
        forall|j: int|
            0 <= j < shape ==> #[trigger] samples_of(idata, ldata, count, shape)[i].0[j]
                == idata[i * shape + j],
{
    assert(0 <= i * shape && i * shape + shape <= count * shape) by (nonlinear_arith)
        requires
            0 <= i < count,
            0 <= shape,
    ;
}

/// Fatal format: when the label stream inflates to bytes whose magic
/// number is unrecognized, the whole load fails with that magic's
/// error, never with a silently guessed layout.
pub proof fn lemma_load_bad_magic(images_gz: Seq<u8>, labels_gz: Seq<u8>)
    requires
        gunzip_ok(labels_gz),
        gunzipped(labels_gz).len() >= 4,
        be_u32_at(gunzipped(labels_gz), 0) != LABEL_MAGIC,
        be_u32_at(gunzipped(labels_gz), 0) != IMAGE_MAGIC,
    ensures
        load_spec(images_gz, labels_gz) == Err::<Seq<(Seq<u8>, u8)>, LoadError>(
            LoadError::BadMagic(be_u32_at(gunzipped(labels_gz), 0)),
        ),
{
    lemma_bad_magic_is_fatal(gunzipped(labels_gz));
}

/// Idempotence: the loaded dataset is a function of the two input
/// streams alone, so two loads of the same pair yield element-wise
/// equal datasets.
pub proof fn lemma_load_idempotent(
    images_gz: Seq<u8>,
    labels_gz: Seq<u8>,
    ds1: Seq<MnistImage>,
    ds2: Seq<MnistImage>,
)
    requires
        Ok::<_, LoadError>(dataset_view(ds1)) == load_spec(images_gz, labels_gz),
        Ok::<_, LoadError>(dataset_view(ds2)) == load_spec(images_gz, labels_gz),
    ensures
        ds1.len() == ds2.len(),
        forall|i: int| 0 <= i < ds1.len() ==> ds1[i]@ == ds2[i]@,
{
    assert(dataset_view(ds1) == dataset_view(ds2));
    assert(dataset_view(ds1).len() == ds1.len());
    assert(dataset_view(ds2).len() == ds2.len());
    assert forall|i: int| 0 <= i < ds1.len() implies ds1[i]@ == ds2[i]@ by {
        assert(dataset_view(ds1)[i] == ds1[i]@);
        assert(dataset_view(ds2)[i] == ds2[i]@);
    }
}

/// Boundary: a consistent pair that declares zero samples loads to the
/// empty dataset, not to an error.
pub proof fn lemma_zero_count_is_empty(
    images_gz: Seq<u8>,
    labels_gz: Seq<u8>,
    rows: u32,
    cols: u32,
)
    requires
        gunzip_ok(images_gz),
        gunzipped(images_gz) == image_container_bytes(0, rows, cols, Seq::<u8>::empty()),
        gunzip_ok(labels_gz),
        gunzipped(labels_gz) == label_container_bytes(0, Seq::<u8>::empty()),
        1 <= rows <= 0x7fffffff,
        1 <= cols <= 0x7fffffff,
    ensures
        load_spec(images_gz, labels_gz) == Ok::<_, LoadError>(Seq::<(Seq<u8>, u8)>::empty()),
{
    assert(0 * rows * cols == 0) by (nonlinear_arith);
    lemma_load_round_trip(
        images_gz,
        labels_gz,
        0,
        rows,
        cols,
        Seq::<u8>::empty(),
        Seq::<u8>::empty(),
    );
    assert(samples_of(Seq::<u8>::empty(), Seq::<u8>::empty(), 0, rows as int * cols as int)
        =~= Seq::<(Seq<u8>, u8)>::empty());
}

} // verus!
