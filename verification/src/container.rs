use vstd::prelude::*;
use vstd::slice::slice_subrange;
use crate::compression::{
    compression_of_magic, decompress, decompressed, magic_lzma, magic_lzo, magic_none, magic_zlib,
    CompressionType,
};
use crate::cursor::{take_bytes, take_uint, ByteCursor};
use crate::endian::{be_bytes, lemma_be_bytes_len, lemma_be_roundtrip, lemma_radix_values};
use crate::error::{failure, DecodeError, ErrorKind};

verus! {

/// The length of the file header: four bytes of magic, two of version, two reserved.
pub const HEADER_LEN: usize = 8;

/// What the first eight bytes of a container file say.
#[derive(Clone, Copy, Debug, PartialEq, Eq, Structural)]
pub struct ContainerHeader {
    pub compression: CompressionType,
    pub format_version: u16,
}

/// An opened container: its format version, the codec its file used, and its body, always
/// fully decompressed.
#[derive(Clone, Debug, PartialEq, Eq)]
pub struct Savegame {
    pub format_version: u16,
    pub compression: CompressionType,
    pub body: Vec<u8>,
}

/// A container as a mathematical value.
pub struct SavegameModel {
    pub format_version: u16,
    pub compression: CompressionType,
    pub body: Seq<u8>,
}

impl View for Savegame {
    type V = SavegameModel;

    open spec fn view(&self) -> SavegameModel {
        SavegameModel {
            format_version: self.format_version,
            compression: self.compression,
            body: self.body@,
        }
    }
}

/// The header that a file starts with: the magic decides first, then the big-endian version
/// must be there, then the two reserved bytes, which are not interpreted.
pub open spec fn header_of(file: Seq<u8>) -> Result<ContainerHeader, DecodeError> {
    match take_bytes(file, 0, 4) {
        Err(e) => Err(e),
        Ok(magic) => match compression_of_magic(magic) {
            Err(kind) => Err(failure(kind, 0)),
            Ok(compression) => match take_uint(file, 4, 2) {
                Err(e) => Err(e),
                Ok(version) => match take_bytes(file, 6, 2) {
                    Err(e) => Err(e),
                    Ok(_) => Ok(ContainerHeader { compression, format_version: version as u16 }),
                },
            },
        },
    }
}

/// The container that a header and the outcome of decompressing the body make.
pub open spec fn assembled(header: ContainerHeader, body: Result<Seq<u8>, ErrorKind>) -> Result<
    SavegameModel,
    DecodeError,
> {
    match body {
        Ok(bytes) => Ok(
            SavegameModel {
                format_version: header.format_version,
                compression: header.compression,
                body: bytes,
            },
        ),
        Err(kind) => Err(failure(kind, HEADER_LEN as int)),
    }
}

/// The container that a file holds: its header, and everything after the header decompressed
/// with the codec that the magic names.
pub open spec fn opened(file: Seq<u8>) -> Result<SavegameModel, DecodeError> {
    match header_of(file) {
        Err(e) => Err(e),
        Ok(header) => assembled(header, decompressed(header.compression, file.skip(HEADER_LEN as int))),
    }
}

/// Reads the header that a file starts with.
pub fn parse_header(file: &[u8]) -> (r: Result<ContainerHeader, DecodeError>)
    ensures
        r == header_of(file@),
{
    let mut cursor = ByteCursor::new(file);
    let magic = cursor.read_bytes(4)?;
    let compression = match CompressionType::from_magic(magic) {
        Ok(compression) => compression,
        Err(kind) => {
            return Err(DecodeError::new(kind, 0));
        },
    };
    let format_version = cursor.read_u16()?;
    let _ = cursor.read_bytes(2)?;
    Ok(ContainerHeader { compression, format_version })
}

impl Savegame {
    /// Completes a container from its header and the outcome of decompressing its body. A
    /// failed decompression is reported at the offset where the body starts.
    pub fn assemble(header: ContainerHeader, body: Result<Vec<u8>, ErrorKind>) -> (r: Result<
        Savegame,
        DecodeError,
    >)
        ensures
            match body {
                Ok(bytes) => r is Ok && r->Ok_0.format_version == header.format_version
                    && r->Ok_0.compression == header.compression && r->Ok_0.body == bytes,
                Err(kind) => r == Err::<Savegame, _>(failure(kind, HEADER_LEN as int)),
            },
    {
        match body {
            Ok(bytes) => Ok(
                Savegame {
                    format_version: header.format_version,
                    compression: header.compression,
                    body: bytes,
                },
            ),
            Err(kind) => Err(DecodeError::new(kind, HEADER_LEN)),
        }
    }

    /// Opens a container from the bytes of its file.
    pub fn new(file: &[u8]) -> (r: Result<Savegame, DecodeError>)
        ensures
            match opened(file@) {
                Ok(model) => r is Ok && r->Ok_0@ == model,
                Err(e) => r == Err::<Savegame, _>(e),
            },
    {
        let header = parse_header(file)?;
        let rest = slice_subrange(file, HEADER_LEN, file.len());
        Savegame::assemble(header, decompress(header.compression, rest))
    }

    /// The bytes that saving this container writes: the decompressed body as it is, with no
    /// header and no compression.
    pub fn image(&self) -> (out: &[u8])
        ensures
            out@ == self@.body,
    {
        self.body.as_slice()
    }
}

/// An uncompressed file opens to its own payload: after the magic `OTTN`, a version and two
/// reserved bytes of any value, whatever follows is the body, unchanged.
pub proof fn lemma_open_uncompressed(version: u16, reserved: Seq<u8>, payload: Seq<u8>)
    requires
        reserved.len() == 2,
    ensures
        opened(magic_none() + be_bytes(version as nat, 2) + reserved + payload) == Ok::<
            _,
            DecodeError,
        >(
            SavegameModel {
                format_version: version,
                compression: CompressionType::Uncompressed,
                body: payload,
            },
        ),
{
    let file = magic_none() + be_bytes(version as nat, 2) + reserved + payload;
    lemma_be_bytes_len(version as nat, 2);
    lemma_radix_values();
    lemma_be_roundtrip(version as nat, 2);
    assert(file.subrange(0, 4) =~= magic_none());
    assert(file.subrange(4, 6) =~= be_bytes(version as nat, 2));
    assert(file.skip(HEADER_LEN as int) =~= payload);
}

/// A file whose magic is `OTTD` is refused as unsupported, whatever follows the magic.
pub proof fn lemma_open_lzo(rest: Seq<u8>)
    ensures
        opened(magic_lzo() + rest) == Err::<SavegameModel, _>(
            failure(ErrorKind::UnsupportedFormat, 0),
        ),
{
    assert((magic_lzo() + rest).subrange(0, 4) =~= magic_lzo());
    assert(magic_lzo()[3] != magic_none()[3]);
    assert(magic_lzo()[3] != magic_zlib()[3]);
    assert(magic_lzo()[3] != magic_lzma()[3]);
}

/// A file of at least four bytes whose magic is none of the four known ones is refused as
/// unknown.
pub proof fn lemma_open_unknown(file: Seq<u8>)
    requires
        file.len() >= 4,
        compression_of_magic(file.subrange(0, 4)) == Err::<CompressionType, _>(
            ErrorKind::UnknownFormat,
        ),
    ensures
        opened(file) == Err::<SavegameModel, _>(failure(ErrorKind::UnknownFormat, 0)),
{
}

} // verus!
