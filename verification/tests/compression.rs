use savegame::compression::{
    codec_outcome, decompress, decompress_lzma, decompress_none, decompress_zlib, CompressionType,
};
use savegame::error::ErrorKind;
use std::io::{Error, Read, Write};

fn zlib(data: &[u8]) -> Vec<u8> {
    let mut encoder = flate2::write::ZlibEncoder::new(Vec::new(), flate2::Compression::default());
    encoder.write_all(data).unwrap();
    encoder.finish().unwrap()
}

fn xz(data: &[u8]) -> Vec<u8> {
    let mut encoder = xz2::read::XzEncoder::new(data, 6);
    let mut out = Vec::new();
    encoder.read_to_end(&mut out).unwrap();
    out
}

#[test]
fn magic_names_the_codec() {
    assert_eq!(CompressionType::from_magic(b"OTTN"), Ok(CompressionType::Uncompressed));
    assert_eq!(CompressionType::from_magic(b"OTTZ"), Ok(CompressionType::Zlib));
    assert_eq!(CompressionType::from_magic(b"OTTX"), Ok(CompressionType::Lzma));
}

#[test]
fn magic_lzo_is_unsupported() {
    assert_eq!(CompressionType::from_magic(b"OTTD"), Err(ErrorKind::UnsupportedFormat));
}

#[test]
fn magic_unknown() {
    assert_eq!(CompressionType::from_magic(b"XXXX"), Err(ErrorKind::UnknownFormat));
    assert_eq!(CompressionType::from_magic(b"OTTn"), Err(ErrorKind::UnknownFormat));
    assert_eq!(CompressionType::from_magic(b"oTTN"), Err(ErrorKind::UnknownFormat));
    assert_eq!(CompressionType::from_magic(b"OtTN"), Err(ErrorKind::UnknownFormat));
    assert_eq!(CompressionType::from_magic(b"OTtN"), Err(ErrorKind::UnknownFormat));
    assert_eq!(CompressionType::from_magic(b"OTT"), Err(ErrorKind::UnknownFormat));
    assert_eq!(CompressionType::from_magic(b"OTTNN"), Err(ErrorKind::UnknownFormat));
    assert_eq!(CompressionType::from_magic(b""), Err(ErrorKind::UnknownFormat));
}

#[test]
fn decompress_none_copies() {
    assert_eq!(decompress_none(&[1, 2, 3]), vec![1, 2, 3]);
    assert_eq!(decompress_none(&[]), Vec::<u8>::new());
    assert_eq!(decompress(CompressionType::Uncompressed, &[7, 8]), Ok(vec![7, 8]));
}

#[test]
fn decompress_zlib_inflates() {
    let plain = b"the quick brown fox jumps over the lazy dog, again and again and again";
    let packed = zlib(plain);
    assert_ne!(&packed[..], &plain[..]);
    assert_eq!(decompress_zlib(&packed), Ok(plain.to_vec()));
    assert_eq!(decompress(CompressionType::Zlib, &packed), Ok(plain.to_vec()));
}

#[test]
fn decompress_zlib_empty_payload() {
    let packed = zlib(b"");
    assert!(!packed.is_empty());
    assert_eq!(decompress_zlib(&packed), Ok(Vec::new()));
}

#[test]
fn decompress_zlib_rejects_garbage() {
    assert_eq!(decompress_zlib(b"this is no zlib stream"), Err(ErrorKind::DecompressionError));
    assert_eq!(
        decompress(CompressionType::Zlib, &[0xFF, 0xFF, 0xFF, 0xFF]),
        Err(ErrorKind::DecompressionError)
    );
}

#[test]
fn decompress_zlib_rejects_truncated_stream() {
    let packed = zlib(&[42u8; 4096]);
    assert_eq!(decompress_zlib(&packed[..packed.len() / 2]), Err(ErrorKind::DecompressionError));
}

#[test]
fn decompress_lzma_inflates() {
    let plain = b"sphinx of black quartz, judge my vow; sphinx of black quartz, judge my vow";
    let packed = xz(plain);
    assert_ne!(&packed[..], &plain[..]);
    assert_eq!(decompress_lzma(&packed), Ok(plain.to_vec()));
    assert_eq!(decompress(CompressionType::Lzma, &packed), Ok(plain.to_vec()));
}

#[test]
fn decompress_lzma_rejects_garbage() {
    assert_eq!(decompress_lzma(b"this is no xz stream"), Err(ErrorKind::DecompressionError));
    assert_eq!(
        decompress(CompressionType::Lzma, &[1, 2, 3, 4, 5, 6, 7, 8]),
        Err(ErrorKind::DecompressionError)
    );
}

#[test]
fn decompress_lzma_rejects_truncated_stream() {
    let packed = xz(&[42u8; 4096]);
    assert_eq!(decompress_lzma(&packed[..packed.len() / 2]), Err(ErrorKind::DecompressionError));
}

#[test]
fn codec_outcome_maps_any_error() {
    assert_eq!(codec_outcome(Ok(vec![1, 2])), Ok(vec![1, 2]));
    assert_eq!(
        codec_outcome(Err(Error::new(std::io::ErrorKind::InvalidData, "corrupt"))),
        Err(ErrorKind::DecompressionError)
    );
    assert_eq!(
        codec_outcome(Err(Error::new(std::io::ErrorKind::UnexpectedEof, "short"))),
        Err(ErrorKind::DecompressionError)
    );
}
