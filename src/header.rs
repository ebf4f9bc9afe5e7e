use vstd::prelude::*;
use crate::bytes::{le_u16, le_u32, le_u64, read_bytes, read_u16_le, read_u8, u32_from_le, u64_from_le};
use crate::error::FormatError;

verus! {

/// First magic number of a KDBX file.
pub const FILE_SIGNATURE_1: u32 = 0x9AA2D903;

/// Second magic number, naming the KDBX 2/3 sub-format.
pub const FILE_SIGNATURE_2: u32 = 0xB54BFB67;

/// Newest major version whose header layout this reader knows.
pub const MAX_MAJOR_VERSION: u16 = 3;

/// Offset of the first header field, after signatures and version.
pub const FIELDS_START: usize = 12;

/// Type codes of the header's tag-length-value fields.
#[derive(Debug, Clone, Copy, PartialEq, Eq, Structural)]
pub enum HeaderTypes {
    End,
    Comment,
    CipherId,
    Compression,
    MasterSeed,
    TransformSeed,
    TransformRounds,
    EncryptionIv,
    ProtectedStreamKey,
    StreamStartBytes,
    InnerRandomStreamId,
}

/// The field type that a code stands for, if any.
pub open spec fn header_type_of(code: u8) -> Option<HeaderTypes> {
    if code == 0 {
        Some(HeaderTypes::End)
    } else if code == 1 {
        Some(HeaderTypes::Comment)
    } else if code == 2 {
        Some(HeaderTypes::CipherId)
    } else if code == 3 {
        Some(HeaderTypes::Compression)
    } else if code == 4 {
        Some(HeaderTypes::MasterSeed)
    } else if code == 5 {
        Some(HeaderTypes::TransformSeed)
    } else if code == 6 {
        Some(HeaderTypes::TransformRounds)
    } else if code == 7 {
        Some(HeaderTypes::EncryptionIv)
    } else if code == 8 {
        Some(HeaderTypes::ProtectedStreamKey)
    } else if code == 9 {
        Some(HeaderTypes::StreamStartBytes)
    } else if code == 10 {
        Some(HeaderTypes::InnerRandomStreamId)
    } else {
        None
    }
}

impl HeaderTypes {
    /// The field type of a type code; an unknown code is a format error.
    pub fn from_code(code: u8) -> (r: Result<HeaderTypes, FormatError>)
        ensures
            match header_type_of(code) {
                Some(t) => r == Ok::<HeaderTypes, FormatError>(t),
                None => r == Err::<HeaderTypes, FormatError>(FormatError::UnknownField(code)),
            },
    {
        match code {
            0 => Ok(HeaderTypes::End),
            1 => Ok(HeaderTypes::Comment),
            2 => Ok(HeaderTypes::CipherId),
            3 => Ok(HeaderTypes::Compression),
            4 => Ok(HeaderTypes::MasterSeed),
            5 => Ok(HeaderTypes::TransformSeed),
            6 => Ok(HeaderTypes::TransformRounds),
            7 => Ok(HeaderTypes::EncryptionIv),
            8 => Ok(HeaderTypes::ProtectedStreamKey),
            9 => Ok(HeaderTypes::StreamStartBytes),
            10 => Ok(HeaderTypes::InnerRandomStreamId),
            _ => Err(FormatError::UnknownField(code)),
        }
    }
}

/// How the plaintext payload is packed.
#[derive(Debug, Clone, Copy, PartialEq, Eq, Structural)]
pub enum CompressionAlgorithm {
    Uncompressed,
    Gzip,
}

/// What a header holds, with byte strings as sequences.
pub struct HeaderModel {
    pub file_signature_1: u32,
    pub file_signature_2: u32,
    pub file_version_minor: u16,
    pub file_version_major: u16,
    pub comment: Option<Seq<u8>>,
    pub cipher_id: Option<Seq<u8>>,
    pub compression: Option<CompressionAlgorithm>,
    pub master_seed: Option<Seq<u8>>,
    pub transform_seed: Option<Seq<u8>>,
    pub transform_rounds: Option<u64>,
    pub encryption_iv: Option<Seq<u8>>,
    pub protected_stream_key: Option<Seq<u8>>,
    pub stream_start_bytes: Option<Seq<u8>>,
    pub inner_random_stream_id: Option<u32>,
}

pub open spec fn opt_bytes(o: Option<Vec<u8>>) -> Option<Seq<u8>> {
    match o {
        Some(v) => Some(v@),
        None => None,
    }
}

pub open spec fn opt_ref_bytes(o: Option<&Vec<u8>>) -> Option<Seq<u8>> {
    match o {
        Some(v) => Some(v@),
        None => None,
    }
}

/// The decoded header of a KDBX file.
#[derive(Debug)]
pub struct Header {
    file_signature_1: u32,
    file_signature_2: u32,
    file_version_minor: u16,
    file_version_major: u16,
    comment: Option<Vec<u8>>,
    cipher_id: Option<Vec<u8>>,
    compression: Option<CompressionAlgorithm>,
    master_seed: Option<Vec<u8>>,
    transform_seed: Option<Vec<u8>>,
    transform_rounds: Option<u64>,
    encryption_iv: Option<Vec<u8>>,
    protected_stream_key: Option<Vec<u8>>,
    stream_start_bytes: Option<Vec<u8>>,
    inner_random_stream_id: Option<u32>,
}

impl View for Header {
    type V = HeaderModel;

    closed spec fn view(&self) -> HeaderModel {
        HeaderModel {
            file_signature_1: self.file_signature_1,
            file_signature_2: self.file_signature_2,
            file_version_minor: self.file_version_minor,
            file_version_major: self.file_version_major,
            comment: opt_bytes(self.comment),
            cipher_id: opt_bytes(self.cipher_id),
            compression: self.compression,
            master_seed: opt_bytes(self.master_seed),
            transform_seed: opt_bytes(self.transform_seed),
            transform_rounds: self.transform_rounds,
            encryption_iv: opt_bytes(self.encryption_iv),
            protected_stream_key: opt_bytes(self.protected_stream_key),
            stream_start_bytes: opt_bytes(self.stream_start_bytes),
            inner_random_stream_id: self.inner_random_stream_id,
        }
    }
}

/// A header with no field set, carrying the given signatures and version.
pub open spec fn empty_model(s1: u32, s2: u32, minor: u16, major: u16) -> HeaderModel {
    HeaderModel {
        file_signature_1: s1,
        file_signature_2: s2,
        file_version_minor: minor,
        file_version_major: major,
        comment: None,
        cipher_id: None,
        compression: None,
        master_seed: None,
        transform_seed: None,
        transform_rounds: None,
        encryption_iv: None,
        protected_stream_key: None,
        stream_start_bytes: None,
        inner_random_stream_id: None,
    }
}

/// The length that a field of the given type must have, for fixed-size types.
pub open spec fn fixed_length(t: HeaderTypes) -> Option<nat> {
    match t {
        HeaderTypes::CipherId => Some(16),
        HeaderTypes::Compression => Some(4),
        HeaderTypes::MasterSeed => Some(32),
        HeaderTypes::TransformSeed => Some(32),
        HeaderTypes::TransformRounds => Some(8),
        HeaderTypes::EncryptionIv => Some(16),
        HeaderTypes::ProtectedStreamKey => Some(32),
        HeaderTypes::StreamStartBytes => Some(32),
        HeaderTypes::InnerRandomStreamId => Some(4),
        _ => None,
    }
}

/// The header after one non-terminator field with code `code` and value `v`.
#[verifier::opaque]
pub open spec fn apply_field(h: HeaderModel, code: u8, v: Seq<u8>) -> Result<HeaderModel, FormatError> {
    match header_type_of(code) {
        None => Err(FormatError::UnknownField(code)),
        Some(t) => {
            if fixed_length(t) matches Some(n) && v.len() != n {
                Err(FormatError::InvalidFieldLength(code))
            } else {
                match t {
                    HeaderTypes::Comment => Ok(HeaderModel { comment: Some(v), ..h }),
                    HeaderTypes::CipherId => Ok(HeaderModel { cipher_id: Some(v), ..h }),
                    HeaderTypes::Compression => {
                        if le_u32(v) == 0 {
                            Ok(HeaderModel { compression: Some(CompressionAlgorithm::Uncompressed), ..h })
                        } else if le_u32(v) == 1 {
                            Ok(HeaderModel { compression: Some(CompressionAlgorithm::Gzip), ..h })
                        } else {
                            Err(FormatError::InvalidFieldValue(code))
                        }
                    },
                    HeaderTypes::MasterSeed => Ok(HeaderModel { master_seed: Some(v), ..h }),
                    HeaderTypes::TransformSeed => Ok(HeaderModel { transform_seed: Some(v), ..h }),
                    HeaderTypes::TransformRounds => {
                        if le_u64(v) == 0 {
                            Err(FormatError::InvalidFieldValue(code))
                        } else {
                            Ok(HeaderModel { transform_rounds: Some(le_u64(v) as u64), ..h })
                        }
                    },
                    HeaderTypes::EncryptionIv => Ok(HeaderModel { encryption_iv: Some(v), ..h }),
                    HeaderTypes::ProtectedStreamKey => Ok(
                        HeaderModel { protected_stream_key: Some(v), ..h },
                    ),
                    HeaderTypes::StreamStartBytes => Ok(
                        HeaderModel { stream_start_bytes: Some(v), ..h },
                    ),
                    HeaderTypes::InnerRandomStreamId => Ok(
                        HeaderModel { inner_random_stream_id: Some(le_u32(v) as u32), ..h },
                    ),
                    HeaderTypes::End => Ok(h),
                }
            }
        },
    }
}

/// Walks the fields from `pos` up to and including the terminator: the
/// resulting header and the offset just past the terminator's value.
pub open spec fn parse_fields(data: Seq<u8>, pos: int, h: HeaderModel) -> Result<
    (HeaderModel, int),
    FormatError,
>
    decreases data.len() - pos,
{
    if pos < 0 || pos + 3 > data.len() {
        Err(FormatError::Truncated)
    } else {
        let code = data[pos];
        let end = pos + 3 + le_u16(data.subrange(pos + 1, pos + 3));
        if end > data.len() {
            Err(FormatError::Truncated)
        } else if code == 0 {
            Ok((h, end))
        } else {
            match apply_field(h, code, data.subrange(pos + 3, end)) {
                Ok(h2) => parse_fields(data, end, h2),
                Err(e) => Err(e),
            }
        }
    }
}

/// The first required field that the header lacks, if any.
pub open spec fn first_missing(h: HeaderModel) -> Option<HeaderTypes> {
    if h.cipher_id is None {
        Some(HeaderTypes::CipherId)
    } else if h.compression is None {
        Some(HeaderTypes::Compression)
    } else if h.master_seed is None {
        Some(HeaderTypes::MasterSeed)
    } else if h.transform_seed is None {
        Some(HeaderTypes::TransformSeed)
    } else if h.transform_rounds is None {
        Some(HeaderTypes::TransformRounds)
    } else if h.encryption_iv is None {
        Some(HeaderTypes::EncryptionIv)
    } else if h.protected_stream_key is None {
        Some(HeaderTypes::ProtectedStreamKey)
    } else if h.stream_start_bytes is None {
        Some(HeaderTypes::StreamStartBytes)
    } else if h.inner_random_stream_id is None {
        Some(HeaderTypes::InnerRandomStreamId)
    } else {
        None
    }
}

/// Every field that is present has its fixed length, and the round count is positive.
pub open spec fn well_sized(h: HeaderModel) -> bool {
    &&& h.cipher_id matches Some(v) ==> v.len() == 16
    &&& h.master_seed matches Some(v) ==> v.len() == 32
    &&& h.transform_seed matches Some(v) ==> v.len() == 32
    &&& h.transform_rounds matches Some(n) ==> n > 0
    &&& h.encryption_iv matches Some(v) ==> v.len() == 16
    &&& h.protected_stream_key matches Some(v) ==> v.len() == 32
    &&& h.stream_start_bytes matches Some(v) ==> v.len() == 32
}

/// Every required field is present, each with its fixed length.
pub open spec fn is_complete(h: HeaderModel) -> bool {
    first_missing(h) is None && well_sized(h)
}

/// Applying a field keeps every present field at its fixed length.
pub proof fn lemma_apply_field_well_sized(h: HeaderModel, code: u8, v: Seq<u8>)
    requires
        well_sized(h),
    ensures
        apply_field(h, code, v) matches Ok(h2) ==> well_sized(h2),
{
    reveal(apply_field);
}

/// Walking the fields keeps every present field at its fixed length.
pub proof fn lemma_parse_fields_well_sized(data: Seq<u8>, pos: int, h: HeaderModel)
    requires
        well_sized(h),
    ensures
        parse_fields(data, pos, h) matches Ok((h2, _)) ==> well_sized(h2),
    decreases data.len() - pos,
{
    if pos >= 0 && pos + 3 <= data.len() {
        let code = data[pos];
        let end = pos + 3 + le_u16(data.subrange(pos + 1, pos + 3));
        if end <= data.len() && code != 0 {
            lemma_apply_field_well_sized(h, code, data.subrange(pos + 3, end));
            if let Ok(h2) = apply_field(h, code, data.subrange(pos + 3, end)) {
                lemma_parse_fields_well_sized(data, end, h2);
            }
        }
    }
}

/// The result of parsing a whole file's header: the header and the offset
/// at which the encrypted payload begins.
pub open spec fn parse_header(data: Seq<u8>) -> Result<(HeaderModel, int), FormatError> {
    if data.len() < 12 {
        Err(FormatError::Truncated)
    } else if le_u32(data.subrange(0, 4)) != FILE_SIGNATURE_1 || le_u32(data.subrange(4, 8))
        != FILE_SIGNATURE_2 {
        Err(FormatError::InvalidSignature)
    } else if le_u16(data.subrange(10, 12)) > MAX_MAJOR_VERSION {
        Err(FormatError::UnsupportedVersion)
    } else {
        let h0 = empty_model(
            FILE_SIGNATURE_1,
            FILE_SIGNATURE_2,
            le_u16(data.subrange(8, 10)) as u16,
            le_u16(data.subrange(10, 12)) as u16,
        );
        match parse_fields(data, 12, h0) {
            Err(e) => Err(e),
            Ok((h, end)) => match first_missing(h) {
                Some(t) => Err(FormatError::MissingField(t)),
                None => Ok((h, end)),
            },
        }
    }
}

impl Header {
    /// A header with no field set, zero signatures and version.
    pub fn new() -> (r: Header)
        ensures
            r@ == empty_model(0, 0, 0, 0),
    {
        Header {
            file_signature_1: 0,
            file_signature_2: 0,
            file_version_minor: 0,
            file_version_major: 0,
            comment: None,
            cipher_id: None,
            compression: None,
            master_seed: None,
            transform_seed: None,
            transform_rounds: None,
            encryption_iv: None,
            protected_stream_key: None,
            stream_start_bytes: None,
            inner_random_stream_id: None,
        }
    }

    /// Stores one non-terminator field, checking its type, length and value.
    fn with_field(self, code: u8, value: Vec<u8>) -> (r: Result<Header, FormatError>)
        ensures
            match apply_field(self@, code, value@) {
                Ok(m) => (r matches Ok(h) && h@ == m),
                Err(e) => r == Err::<Header, FormatError>(e),
            },
    {
        proof {
            reveal(apply_field);
        }
        let t = match HeaderTypes::from_code(code) {
            Ok(t) => t,
            Err(e) => return Err(e),
        };
        let n = value.len();
        match t {
            HeaderTypes::End => Ok(self),
            HeaderTypes::Comment => Ok(Header { comment: Some(value), ..self }),
            HeaderTypes::CipherId => {
                if n != 16 {
                    Err(FormatError::InvalidFieldLength(code))
                } else {
                    Ok(Header { cipher_id: Some(value), ..self })
                }
            },
            HeaderTypes::Compression => {
                if n != 4 {
                    Err(FormatError::InvalidFieldLength(code))
                } else {
                    let c = u32_from_le(value.as_slice());
                    if c == 0 {
                        Ok(Header { compression: Some(CompressionAlgorithm::Uncompressed), ..self })
                    } else if c == 1 {
                        Ok(Header { compression: Some(CompressionAlgorithm::Gzip), ..self })
                    } else {
                        Err(FormatError::InvalidFieldValue(code))
                    }
                }
            },
            HeaderTypes::MasterSeed => {
                if n != 32 {
                    Err(FormatError::InvalidFieldLength(code))
                } else {
                    Ok(Header { master_seed: Some(value), ..self })
                }
            },
            HeaderTypes::TransformSeed => {
                if n != 32 {
                    Err(FormatError::InvalidFieldLength(code))
                } else {
                    Ok(Header { transform_seed: Some(value), ..self })
                }
            },
            HeaderTypes::TransformRounds => {
                if n != 8 {
                    Err(FormatError::InvalidFieldLength(code))
                } else {
                    let rounds = u64_from_le(value.as_slice());
                    if rounds == 0 {
                        Err(FormatError::InvalidFieldValue(code))
                    } else {
                        Ok(Header { transform_rounds: Some(rounds), ..self })
                    }
                }
            },
            HeaderTypes::EncryptionIv => {
                if n != 16 {
                    Err(FormatError::InvalidFieldLength(code))
                } else {
                    Ok(Header { encryption_iv: Some(value), ..self })
                }
            },
            HeaderTypes::ProtectedStreamKey => {
                if n != 32 {
                    Err(FormatError::InvalidFieldLength(code))
                } else {
                    Ok(Header { protected_stream_key: Some(value), ..self })
                }
            },
            HeaderTypes::StreamStartBytes => {
                if n != 32 {
                    Err(FormatError::InvalidFieldLength(code))
                } else {
                    Ok(Header { stream_start_bytes: Some(value), ..self })
                }
            },
            HeaderTypes::InnerRandomStreamId => {
                if n != 4 {
                    Err(FormatError::InvalidFieldLength(code))
                } else {
                    let id = u32_from_le(value.as_slice());
                    Ok(Header { inner_random_stream_id: Some(id), ..self })
                }
            },
        }
    }

    /// The first required field that is absent, if any.
    fn missing_field(&self) -> (r: Option<HeaderTypes>)
        ensures
            r == first_missing(self@),
    {
        if self.cipher_id.is_none() {
            Some(HeaderTypes::CipherId)
        } else if self.compression.is_none() {
            Some(HeaderTypes::Compression)
        } else if self.master_seed.is_none() {
            Some(HeaderTypes::MasterSeed)
        } else if self.transform_seed.is_none() {
            Some(HeaderTypes::TransformSeed)
        } else if self.transform_rounds.is_none() {
            Some(HeaderTypes::TransformRounds)
        } else if self.encryption_iv.is_none() {
            Some(HeaderTypes::EncryptionIv)
        } else if self.protected_stream_key.is_none() {
            Some(HeaderTypes::ProtectedStreamKey)
        } else if self.stream_start_bytes.is_none() {
            Some(HeaderTypes::StreamStartBytes)
        } else if self.inner_random_stream_id.is_none() {
            Some(HeaderTypes::InnerRandomStreamId)
        } else {
            None
        }
    }

    /// Parses the signatures, the version and the header fields of a file;
    /// on success also gives the offset at which the payload begins.
    pub fn parse(data: &[u8]) -> (r: Result<(Header, usize), FormatError>)
        ensures
            match parse_header(data@) {
                Ok((m, end)) => (r matches Ok((h, e)) && h@ == m && e == end && is_complete(h@)),
                Err(err) => r == Err::<(Header, usize), FormatError>(err),
            },
            r matches Ok((_, e)) ==> e <= data@.len(),
    {
        if data.len() < FIELDS_START {
            return Err(FormatError::Truncated);
        }
        let sig1 = match read_bytes(data, 0, 4) {
            Ok(v) => u32_from_le(v.as_slice()),
            Err(e) => return Err(e),
        };
        let sig2 = match read_bytes(data, 4, 4) {
            Ok(v) => u32_from_le(v.as_slice()),
            Err(e) => return Err(e),
        };
        if sig1 != FILE_SIGNATURE_1 || sig2 != FILE_SIGNATURE_2 {
            return Err(FormatError::InvalidSignature);
        }
        let minor = match read_u16_le(data, 8) {
            Ok(x) => x,
            Err(e) => return Err(e),
        };
        let major = match read_u16_le(data, 10) {
            Ok(x) => x,
            Err(e) => return Err(e),
        };
        if major > MAX_MAJOR_VERSION {
            return Err(FormatError::UnsupportedVersion);
        }
        let mut h = Header::new();
        h.file_signature_1 = sig1;
        h.file_signature_2 = sig2;
        h.file_version_minor = minor;
        h.file_version_major = major;
        assert(h@ == empty_model(
            FILE_SIGNATURE_1,
            FILE_SIGNATURE_2,
            le_u16(data@.subrange(8, 10)) as u16,
            le_u16(data@.subrange(10, 12)) as u16,
        ));
        let ghost target = parse_fields(data@, 12, h@);
        proof {
            lemma_parse_fields_well_sized(data@, 12, h@);
        }
        let dlen: usize = data.len();
        let mut pos: usize = FIELDS_START;
        loop
            invariant
                dlen == data@.len(),
                pos <= dlen,
                parse_fields(data@, pos as int, h@) == target,
                target == parse_fields(data@, 12, empty_model(
                    FILE_SIGNATURE_1,
                    FILE_SIGNATURE_2,
                    le_u16(data@.subrange(8, 10)) as u16,
                    le_u16(data@.subrange(10, 12)) as u16,
                )),
                parse_header(data@) == match target {
                    Err(e) => Err(e),
                    Ok((hm, end)) => match first_missing(hm) {
                        Some(t) => Err(FormatError::MissingField(t)),
                        None => Ok((hm, end)),
                    },
                },
                well_sized(h@),
            decreases dlen - pos,
        {
            let code = match read_u8(data, pos) {
                Ok(c) => c,
                Err(e) => return Err(e),
            };
            let len = match read_u16_le(data, pos + 1) {
                Ok(x) => x,
                Err(e) => return Err(e),
            };
            let value = match read_bytes(data, pos + 3, len as usize) {
                Ok(v) => v,
                Err(e) => return Err(e),
            };
            let next: usize = pos + 3 + len as usize;
            if code == 0 {
                return match h.missing_field() {
                    Some(t) => Err(FormatError::MissingField(t)),
                    None => Ok((h, next)),
                };
            }
            proof {
                lemma_apply_field_well_sized(h@, code, value@);
            }
            h = match h.with_field(code, value) {
                Ok(h2) => h2,
                Err(e) => return Err(e),
            };
            pos = next;
        }
    }
}

impl Header {
    pub fn cipher_id(&self) -> (r: Option<&Vec<u8>>)
        ensures
            opt_ref_bytes(r) == self@.cipher_id,
    {
        self.cipher_id.as_ref()
    }

    pub fn compression(&self) -> (r: Option<CompressionAlgorithm>)
        ensures
            r == self@.compression,
    {
        self.compression
    }

    pub fn master_seed(&self) -> (r: Option<&Vec<u8>>)
        ensures
            opt_ref_bytes(r) == self@.master_seed,
    {
        self.master_seed.as_ref()
    }

    pub fn transform_seed(&self) -> (r: Option<&Vec<u8>>)
        ensures
            opt_ref_bytes(r) == self@.transform_seed,
    {
        self.transform_seed.as_ref()
    }

    pub fn transform_rounds(&self) -> (r: Option<u64>)
        ensures
            r == self@.transform_rounds,
    {
        self.transform_rounds
    }

    pub fn encryption_iv(&self) -> (r: Option<&Vec<u8>>)
        ensures
            opt_ref_bytes(r) == self@.encryption_iv,
    {
        self.encryption_iv.as_ref()
    }

    pub fn stream_start_bytes(&self) -> (r: Option<&Vec<u8>>)
        ensures
            opt_ref_bytes(r) == self@.stream_start_bytes,
    {
        self.stream_start_bytes.as_ref()
    }
}

impl Header {
    pub fn file_version_minor(&self) -> (r: u16)
        ensures
            r == self@.file_version_minor,
    {
        self.file_version_minor
    }

    pub fn file_version_major(&self) -> (r: u16)
        ensures
            r == self@.file_version_major,
    {
        self.file_version_major
    }

    pub fn comment(&self) -> (r: Option<&Vec<u8>>)
        ensures
            opt_ref_bytes(r) == self@.comment,
    {
        self.comment.as_ref()
    }

    pub fn protected_stream_key(&self) -> (r: Option<&Vec<u8>>)
        ensures
            opt_ref_bytes(r) == self@.protected_stream_key,
    {
        self.protected_stream_key.as_ref()
    }

    pub fn inner_random_stream_id(&self) -> (r: Option<u32>)
        ensures
            r == self@.inner_random_stream_id,
    {
        self.inner_random_stream_id
    }
}

} // verus!
