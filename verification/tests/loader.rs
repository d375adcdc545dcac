use emnist_loader::container::{LoadError, MnistData, MnistHeader};
use emnist_loader::loader::load_data;

fn gz(bytes: &[u8]) -> Vec<u8> {
    let mut enc = flate2::write::GzEncoder::new(Vec::new(), flate2::Compression::default());
    std::io::Write::write_all(&mut enc, bytes).unwrap();
    enc.finish().unwrap()
}

fn image_file(count: u32, rows: u32, cols: u32, payload: &[u8]) -> Vec<u8> {
    let mut b = Vec::new();
    b.extend_from_slice(&2051u32.to_be_bytes());
    b.extend_from_slice(&count.to_be_bytes());
    b.extend_from_slice(&rows.to_be_bytes());
    b.extend_from_slice(&cols.to_be_bytes());
    b.extend_from_slice(payload);
    b
}

fn label_file(count: u32, labels: &[u8]) -> Vec<u8> {
    let mut b = Vec::new();
    b.extend_from_slice(&2049u32.to_be_bytes());
    b.extend_from_slice(&count.to_be_bytes());
    b.extend_from_slice(labels);
    b
}

#[test]
fn round_trip_images() {
    let payload: Vec<u8> = vec![10, 20, 30, 40, 50, 60, 70, 80, 90, 100, 110, 255];
    let images = gz(&image_file(2, 2, 3, &payload));
    let labels = gz(&label_file(2, &[5, 9]));
    let ds = load_data(&images, &labels).unwrap();
    assert_eq!(ds.len(), 2);
    assert_eq!(ds[0].image, payload[0..6].to_vec());
    assert_eq!(ds[1].image, payload[6..12].to_vec());
    assert_eq!(ds[0].image.len(), 6);
    assert_eq!(ds[1].image.len(), 6);
}

#[test]
fn label_fidelity() {
    let payload: Vec<u8> = vec![0; 8];
    let images = gz(&image_file(2, 2, 2, &payload));
    let labels = gz(&label_file(2, &[7, 200]));
    let ds = load_data(&images, &labels).unwrap();
    assert_eq!(ds[0].classification, 7);
    assert_eq!(ds[1].classification, 200);
}

#[test]
fn bad_magic_is_fatal() {
    let mut bad = Vec::new();
    bad.extend_from_slice(&1234u32.to_be_bytes());
    bad.extend_from_slice(&0u32.to_be_bytes());
    let images = gz(&image_file(0, 1, 1, &[]));
    let r = load_data(&images, &gz(&bad));
    assert_eq!(r.unwrap_err(), LoadError::BadMagic(1234));
    let d = MnistData::new(&gz(&bad));
    assert_eq!(d.unwrap_err(), LoadError::BadMagic(1234));
}

#[test]
fn load_twice_is_identical() {
    let payload: Vec<u8> = (0..=255).collect::<Vec<u8>>();
    let images = gz(&image_file(4, 8, 8, &payload));
    let labels = gz(&label_file(4, &[1, 2, 3, 4]));
    let ds1 = load_data(&images, &labels).unwrap();
    let ds2 = load_data(&images, &labels).unwrap();
    assert_eq!(ds1, ds2);
}

#[test]
fn zero_count_is_empty() {
    let images = gz(&image_file(0, 28, 28, &[]));
    let labels = gz(&label_file(0, &[]));
    let ds = load_data(&images, &labels).unwrap();
    assert!(ds.is_empty());
}

#[test]
fn container_decodes_header_and_payload() {
    let d = MnistData::new(&gz(&label_file(3, &[1, 2, 3]))).unwrap();
    assert_eq!(d.header, MnistHeader::Labels { count: 3 });
    assert_eq!(d.data, vec![1, 2, 3]);
    let d = MnistData::new(&gz(&image_file(1, 2, 2, &[9, 8, 7, 6]))).unwrap();
    assert_eq!(d.header, MnistHeader::Images { count: 1, rows: 2, cols: 2 });
    assert_eq!(d.data, vec![9, 8, 7, 6]);
}

#[test]
fn parse_without_compression() {
    let d = MnistData::parse(&image_file(1, 1, 3, &[1, 2, 3])).unwrap();
    assert_eq!(d.header, MnistHeader::Images { count: 1, rows: 1, cols: 3 });
    assert_eq!(d.data, vec![1, 2, 3]);
}

#[test]
fn corrupt_gzip_is_an_error() {
    let images = gz(&image_file(0, 1, 1, &[]));
    let r = load_data(&images, &vec![0, 1, 2, 3]);
    assert_eq!(r.unwrap_err(), LoadError::Gzip);
}

#[test]
fn truncated_header_is_an_error() {
    let r = load_data(&gz(&image_file(0, 1, 1, &[])), &gz(&[0x00, 0x00]));
    assert_eq!(r.unwrap_err(), LoadError::TruncatedHeader);
    let short = 2051u32.to_be_bytes().to_vec();
    assert_eq!(MnistData::parse(&short).unwrap_err(), LoadError::TruncatedHeader);
}

#[test]
fn swapped_files_are_the_wrong_kind() {
    let images = gz(&image_file(1, 1, 1, &[3]));
    let labels = gz(&label_file(1, &[2]));
    let r = load_data(&labels, &images);
    assert_eq!(r.unwrap_err(), LoadError::WrongKind);
}

#[test]
fn negative_size_is_an_error() {
    let images = gz(&image_file(0x8000_0000, 1, 1, &[]));
    let labels = gz(&label_file(0x8000_0000, &[]));
    let r = load_data(&images, &labels);
    assert_eq!(r.unwrap_err(), LoadError::NegativeSize);
}

#[test]
fn zero_dimension_is_an_error() {
    let images = gz(&image_file(1, 0, 5, &[]));
    let labels = gz(&label_file(1, &[0]));
    let r = load_data(&images, &labels);
    assert_eq!(r.unwrap_err(), LoadError::ZeroDimension);
}

#[test]
fn count_mismatch_is_an_error() {
    let images = gz(&image_file(2, 1, 1, &[1, 2]));
    let labels = gz(&label_file(3, &[1, 2, 3]));
    let r = load_data(&images, &labels);
    assert_eq!(r.unwrap_err(), LoadError::CountMismatch);
}

#[test]
fn wrong_payload_length_is_an_error() {
    let images = gz(&image_file(2, 1, 2, &[1, 2, 3]));
    let labels = gz(&label_file(2, &[1, 2]));
    let r = load_data(&images, &labels);
    assert_eq!(r.unwrap_err(), LoadError::PayloadSize);
    let images = gz(&image_file(2, 1, 2, &[1, 2, 3, 4]));
    let labels = gz(&label_file(2, &[1, 2, 3]));
    let r = load_data(&images, &labels);
    assert_eq!(r.unwrap_err(), LoadError::PayloadSize);
}
