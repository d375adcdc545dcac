//! The outer layer of an EMNIST/MNIST file: a gzip stream whose inflated
//! bytes hold a magic number, the size fields that the magic calls for,
//! and a raw payload.

use vstd::prelude::*;
use crate::bytes::{be_u32_at, read_be_u32, copy_range};

verus! {

/// The magic number of a label file: one size field follows it.
pub const LABEL_MAGIC: u32 = 2049;

/// The magic number of an image file: three size fields follow it.
pub const IMAGE_MAGIC: u32 = 2051;

/// Why a container or a dataset could not be decoded.
///
/// The size fields are big-endian 32-bit two's-complement integers; a
/// field whose sign bit is set is a negative declared size and is
/// reported as `NegativeSize`.
#[derive(Debug, Clone, Copy, PartialEq, Eq, Structural)]
pub enum LoadError {
    /// The gzip stream was corrupt or truncated.
    Gzip,
    /// The inflated stream ended inside the header.
    TruncatedHeader,
    /// The magic number is neither `LABEL_MAGIC` nor `IMAGE_MAGIC`;
    /// holds the value that was read.
    BadMagic(u32),
    /// A file of the wrong kind: the label slot did not hold a label
    /// container, or the image slot did not hold an image container.
    WrongKind,
    /// A declared size field is negative.
    NegativeSize,
    /// An image container declares zero rows or zero columns.
    ZeroDimension,
    /// The image container and the label container declare different
    /// sample counts.
    CountMismatch,
    /// A payload's length does not match the declared sizes.
    PayloadSize,
}

/// The header of a decoded container; the magic number decides which
/// variant, and so how many size fields were read.
#[derive(Debug, Clone, Copy, PartialEq, Eq, Structural)]
pub enum MnistHeader {
    /// From a label file: the declared number of labels.
    Labels { count: u32 },
    /// From an image file: the declared sample count and the rows and
    /// columns of each image.
    Images { count: u32, rows: u32, cols: u32 },
}

/// An inflated and header-parsed container: the header and the payload
/// bytes that followed it, kept verbatim.
#[derive(Debug, Clone, PartialEq)]
pub struct MnistData {
    pub header: MnistHeader,
    pub data: Vec<u8>,
}

/// The container that an inflated byte stream decodes to, or the error:
/// the magic number picks the header shape, and every byte after the
/// header is payload.
pub open spec fn container_of(b: Seq<u8>) -> Result<(MnistHeader, Seq<u8>), LoadError> {
    if b.len() < 4 {
        Err(LoadError::TruncatedHeader)
    } else {
        let magic = be_u32_at(b, 0);
        if magic == LABEL_MAGIC {
            if b.len() < 8 {
                Err(LoadError::TruncatedHeader)
            } else {
                Ok((MnistHeader::Labels { count: be_u32_at(b, 4) }, b.skip(8)))
            }
        } else if magic == IMAGE_MAGIC {
            if b.len() < 16 {
                Err(LoadError::TruncatedHeader)
            } else {
                Ok(
                    (
                        MnistHeader::Images {
                            count: be_u32_at(b, 4),
                            rows: be_u32_at(b, 8),
                            cols: be_u32_at(b, 12),
                        },
                        b.skip(16),
                    ),
                )
            }
        } else {
            Err(LoadError::BadMagic(magic))
        }
    }
}

/// A stream whose magic number is neither the label nor the image magic
/// decodes to a `BadMagic` error, never to a container.
pub proof fn lemma_bad_magic_is_fatal(b: Seq<u8>)
    requires
        b.len() >= 4,
        be_u32_at(b, 0) != LABEL_MAGIC,
        be_u32_at(b, 0) != IMAGE_MAGIC,
    ensures
        container_of(b) == Err::<(MnistHeader, Seq<u8>), LoadError>(
            LoadError::BadMagic(be_u32_at(b, 0)),
        ),
{
}

/// Whether gzip inflation accepts `s` as a well-formed stream.
pub uninterp spec fn gunzip_ok(s: Seq<u8>) -> bool;

/// The bytes that gzip inflation produces from `s`.
pub uninterp spec fn gunzipped(s: Seq<u8>) -> Seq<u8>;

/// Relies on `flate2::read::GzDecoder` (driven by `std::io::Read::read_to_end`):
/// inflating a gzip stream held fully in memory is a function of the input
/// bytes alone, and it fails exactly on the inputs that are not a
/// well-formed gzip stream.
#[verifier::external_body]
fn gunzip(compressed: &Vec<u8>) -> (r: Result<Vec<u8>, LoadError>)
    ensures
        match r {
            Ok(v) => gunzip_ok(compressed@) && v@ == gunzipped(compressed@),
            Err(e) => !gunzip_ok(compressed@) && e == LoadError::Gzip,
        },
{
    let mut decoder = flate2::read::GzDecoder::new(compressed.as_slice());
    let mut out: Vec<u8> = Vec::new();
    match std::io::Read::read_to_end(&mut decoder, &mut out) {
        Ok(_) => Ok(out),
        Err(_) => Err(LoadError::Gzip),
    }
}

impl MnistData {
    /// Decodes an already-inflated byte stream: reads the magic number and
    /// the size fields it calls for, and keeps the remaining bytes as the
    /// payload.
    pub fn parse(raw: &Vec<u8>) -> (r: Result<MnistData, LoadError>)
        ensures
            match r {
                Ok(d) => container_of(raw@) == Ok::<_, LoadError>((d.header, d.data@)),
                Err(e) => container_of(raw@) == Err::<(MnistHeader, Seq<u8>), _>(e),
            },
    {
        let n = raw.len();
        if n < 4 {
            return Err(LoadError::TruncatedHeader);
        }
        let magic = read_be_u32(raw, 0);
        if magic == LABEL_MAGIC {
            if n < 8 {
                return Err(LoadError::TruncatedHeader);
            }
            let count = read_be_u32(raw, 4);
            let data = copy_range(raw, 8, n - 8);
            proof {
                assert(data@ =~= raw@.skip(8));
            }
            Ok(MnistData { header: MnistHeader::Labels { count }, data })
        } else if magic == IMAGE_MAGIC {
            if n < 16 {
                return Err(LoadError::TruncatedHeader);
            }
            let count = read_be_u32(raw, 4);
            let rows = read_be_u32(raw, 8);
            let cols = read_be_u32(raw, 12);
            let data = copy_range(raw, 16, n - 16);
            proof {
                assert(data@ =~= raw@.skip(16));
            }
            Ok(MnistData { header: MnistHeader::Images { count, rows, cols }, data })
        } else {
            Err(LoadError::BadMagic(magic))
        }
    }

    /// Inflates a gzip stream and decodes the container inside it.
    pub fn new(compressed: &Vec<u8>) -> (r: Result<MnistData, LoadError>)
        ensures
            match r {
                Ok(d) => gunzip_ok(compressed@) && container_of(gunzipped(compressed@))
                    == Ok::<_, LoadError>((d.header, d.data@)),
                Err(e) => if !gunzip_ok(compressed@) {
                    e == LoadError::Gzip
                } else {
                    container_of(gunzipped(compressed@)) == Err::<(MnistHeader, Seq<u8>), _>(e)
                },
            },
    {
        let raw = match gunzip(compressed) {
            Ok(v) => v,
            Err(e) => {
                return Err(e);
            },
        };
        Self::parse(&raw)
    }
}

} // verus!
