use vstd::prelude::*;
use vstd::slice::slice_to_vec;
use crate::error::ErrorKind;

verus! {

/// How the body of a container is compressed. Fixed when the header is read.
#[derive(Clone, Copy, Debug, PartialEq, Eq, Structural)]
pub enum CompressionType {
    /// The body is stored as it is.
    Uncompressed,
    /// The body is a zlib stream.
    Zlib,
    /// The body is an xz (LZMA) stream.
    Lzma,
}

/// The magic `OTTN`: an uncompressed body.
pub open spec fn magic_none() -> Seq<u8> {
    seq![0x4Fu8, 0x54u8, 0x54u8, 0x4Eu8]
}

/// The magic `OTTZ`: a zlib body.
pub open spec fn magic_zlib() -> Seq<u8> {
    seq![0x4Fu8, 0x54u8, 0x54u8, 0x5Au8]
}

/// The magic `OTTX`: an xz body.
pub open spec fn magic_lzma() -> Seq<u8> {
    seq![0x4Fu8, 0x54u8, 0x54u8, 0x58u8]
}

/// The magic `OTTD`: an LZO body, which is recognised and rejected.
pub open spec fn magic_lzo() -> Seq<u8> {
    seq![0x4Fu8, 0x54u8, 0x54u8, 0x44u8]
}

/// The codec that a four-byte magic names, `UnsupportedFormat` for LZO and `UnknownFormat`
/// for anything else.
pub open spec fn compression_of_magic(magic: Seq<u8>) -> Result<CompressionType, ErrorKind> {
    if magic == magic_none() {
        Ok(CompressionType::Uncompressed)
    } else if magic == magic_zlib() {
        Ok(CompressionType::Zlib)
    } else if magic == magic_lzma() {
        Ok(CompressionType::Lzma)
    } else if magic == magic_lzo() {
        Err(ErrorKind::UnsupportedFormat)
    } else {
        Err(ErrorKind::UnknownFormat)
    }
}

/// The bytes that a zlib stream inflates to, or `None` where the stream is corrupt or
/// incomplete. It stands for what the zlib decoder computes and is not defined here.
pub uninterp spec fn zlib_inflated(data: Seq<u8>) -> Option<Seq<u8>>;

/// The bytes that an xz stream inflates to, or `None` where the stream is corrupt or
/// incomplete. It stands for what the xz decoder computes and is not defined here.
pub uninterp spec fn xz_inflated(data: Seq<u8>) -> Option<Seq<u8>>;

/// What decompressing `data` with the given codec yields.
pub open spec fn decompressed(kind: CompressionType, data: Seq<u8>) -> Result<Seq<u8>, ErrorKind> {
    match kind {
        CompressionType::Uncompressed => Ok(data),
        CompressionType::Zlib => inflated(zlib_inflated(data)),
        CompressionType::Lzma => inflated(xz_inflated(data)),
    }
}

/// The outcome of a codec run as a result: a missing output is a `DecompressionError`.
pub open spec fn inflated(output: Option<Seq<u8>>) -> Result<Seq<u8>, ErrorKind> {
    match output {
        Some(bytes) => Ok(bytes),
        None => Err(ErrorKind::DecompressionError),
    }
}

/// `std::io::Error`, the error of the two decoders. Nothing is known of what it holds.
#[verifier::external_type_specification]
#[verifier::external_body]
pub struct ExIoError(std::io::Error);

/// Reads a `flate2::read::ZlibDecoder` over `data` to its end. Believed without proof: the
/// call succeeds exactly where `zlib_inflated` has a value, and then returns that value.
#[verifier::external_body]
fn inflate_zlib(data: &[u8]) -> (r: Result<Vec<u8>, std::io::Error>)
    ensures
        r is Ok <==> zlib_inflated(data@) is Some,
        r matches Ok(out) ==> zlib_inflated(data@) == Some(out@),
{
    let mut decoder = flate2::read::ZlibDecoder::new(data);
    let mut out = Vec::new();
    match std::io::Read::read_to_end(&mut decoder, &mut out) {
        Ok(_) => Ok(out),
        Err(e) => Err(e),
    }
}

/// Reads an `xz2::read::XzDecoder` over `data` to its end. Believed without proof: the call
/// succeeds exactly where `xz_inflated` has a value, and then returns that value.
#[verifier::external_body]
fn inflate_xz(data: &[u8]) -> (r: Result<Vec<u8>, std::io::Error>)
    ensures
        r is Ok <==> xz_inflated(data@) is Some,
        r matches Ok(out) ==> xz_inflated(data@) == Some(out@),
{
    let mut decoder = xz2::read::XzDecoder::new(data);
    let mut out = Vec::new();
    match std::io::Read::read_to_end(&mut decoder, &mut out) {
        Ok(_) => Ok(out),
        Err(e) => Err(e),
    }
}

impl CompressionType {
    /// The codec that a header magic names.
    pub fn from_magic(magic: &[u8]) -> (r: Result<CompressionType, ErrorKind>)
        ensures
            r == compression_of_magic(magic@),
    {
        if magic.len() != 4 || magic[0] != 0x4F || magic[1] != 0x54 || magic[2] != 0x54 {
            assert(magic@ != magic_none() && magic@ != magic_zlib() && magic@ != magic_lzma()
                && magic@ != magic_lzo()) by {
                if magic@.len() == 4 {
                    assert(magic_none()[0] == 0x4F && magic_none()[1] == 0x54 && magic_none()[2]
                        == 0x54);
                    assert(magic_zlib()[0] == 0x4F && magic_zlib()[1] == 0x54 && magic_zlib()[2]
                        == 0x54);
                    assert(magic_lzma()[0] == 0x4F && magic_lzma()[1] == 0x54 && magic_lzma()[2]
                        == 0x54);
                    assert(magic_lzo()[0] == 0x4F && magic_lzo()[1] == 0x54 && magic_lzo()[2]
                        == 0x54);
                }
            }
            return Err(ErrorKind::UnknownFormat);
        }
        let last = magic[3];
        proof {
            assert(magic_none()[3] == 0x4E && magic_zlib()[3] == 0x5A && magic_lzma()[3] == 0x58
                && magic_lzo()[3] == 0x44);
            if last == 0x4E {
                assert(magic@ =~= magic_none());
            } else if last == 0x5A {
                assert(magic@ =~= magic_zlib());
            } else if last == 0x58 {
                assert(magic@ =~= magic_lzma());
            } else if last == 0x44 {
                assert(magic@ =~= magic_lzo());
            }
        }
        if last == 0x4E {
            Ok(CompressionType::Uncompressed)
        } else if last == 0x5A {
            Ok(CompressionType::Zlib)
        } else if last == 0x58 {
            Ok(CompressionType::Lzma)
        } else if last == 0x44 {
            Err(ErrorKind::UnsupportedFormat)
        } else {
            Err(ErrorKind::UnknownFormat)
        }
    }
}

/// The outcome of a codec run as this library reports it: the bytes, or
/// `DecompressionError` whatever the codec's own error was.
pub fn codec_outcome(run: Result<Vec<u8>, std::io::Error>) -> (r: Result<Vec<u8>, ErrorKind>)
    ensures
        match run {
            Ok(bytes) => r == Ok::<Vec<u8>, ErrorKind>(bytes),
            Err(_) => r == Err::<Vec<u8>, _>(ErrorKind::DecompressionError),
        },
{
    match run {
        Ok(bytes) => Ok(bytes),
        Err(_) => Err(ErrorKind::DecompressionError),
    }
}

/// The body of an uncompressed container: the data as it is.
pub fn decompress_none(data: &[u8]) -> (out: Vec<u8>)
    ensures
        out@ == data@,
{
    slice_to_vec(data)
}

/// Inflates a zlib stream to completion.
pub fn decompress_zlib(data: &[u8]) -> (r: Result<Vec<u8>, ErrorKind>)
    ensures
        match inflated(zlib_inflated(data@)) {
            Ok(bytes) => r is Ok && r->Ok_0@ == bytes,
            Err(e) => r == Err::<Vec<u8>, _>(e),
        },
{
    codec_outcome(inflate_zlib(data))
}

/// Inflates an xz stream to completion.
pub fn decompress_lzma(data: &[u8]) -> (r: Result<Vec<u8>, ErrorKind>)
    ensures
        match inflated(xz_inflated(data@)) {
            Ok(bytes) => r is Ok && r->Ok_0@ == bytes,
            Err(e) => r == Err::<Vec<u8>, _>(e),
        },
{
    codec_outcome(inflate_xz(data))
}

/// Decompresses `data` with the given codec, to completion.
pub fn decompress(kind: CompressionType, data: &[u8]) -> (r: Result<Vec<u8>, ErrorKind>)
    ensures
        match decompressed(kind, data@) {
            Ok(bytes) => r is Ok && r->Ok_0@ == bytes,
            Err(e) => r == Err::<Vec<u8>, _>(e),
        },
{
    match kind {
        CompressionType::Uncompressed => Ok(decompress_none(data)),
        CompressionType::Zlib => decompress_zlib(data),
        CompressionType::Lzma => decompress_lzma(data),
    }
}

} // verus!
