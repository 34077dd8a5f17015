//! The 80-byte header: its layout, the structural probe, the validation
//! cascade and the decoder.
use vstd::bytes::*;
use vstd::prelude::*;
use vstd::slice::*;

use vstd::utf8::*;

use crate::error::{ErrorKind, ErrorType};
use crate::flags::{flag_is_set, spec_flag_is_set, DatumFlag};

verus! {

/// The current version of the format.
pub const VERSION: u16 = 1;

/// The oldest version of the format this library knows.
pub const MIN_VERSION: u16 = 1;

/// The size of a header in bytes.
pub const HEADER_SIZE: usize = 80;

/// The eight bytes every header starts with.
pub const MAGIC: [u8; 8] = [0xA7, 0xF6, 0xE5, 0xD4, 0xC3, 0xB2, 0xA1, 0xE1];

/// The eight bytes every header ends with.
pub const DELIMITER: [u8; 8] = [0xC8, 0xB7, 0xA6, 0xE5, 0xD4, 0xC3, 0xB2, 0xF1];

/// Eight zero bytes: an unset fixed-width field.
pub const EMPTY: [u8; 8] = [0, 0, 0, 0, 0, 0, 0, 0];

/// The earliest timestamp (nanoseconds since the Unix epoch) a complete
/// header may carry: the time the format was first defined.
pub const MAGIC_DATE: u64 = 1652155382000000001;

/// The eight bytes of `b` from `off`.
pub open spec fn region8(b: Seq<u8>, off: int) -> Seq<u8> {
    b.subrange(off, off + 8)
}

/// The little-endian `u16` at `off` in `b`.
pub open spec fn field_u16(b: Seq<u8>, off: int) -> u16 {
    spec_u16_from_le_bytes(b.subrange(off, off + 2))
}

/// The little-endian `u32` at `off` in `b`.
pub open spec fn field_u32(b: Seq<u8>, off: int) -> u32 {
    spec_u32_from_le_bytes(b.subrange(off, off + 4))
}

/// The little-endian `u64` at `off` in `b`.
pub open spec fn field_u64(b: Seq<u8>, off: int) -> u64 {
    spec_u64_from_le_bytes(b.subrange(off, off + 8))
}

/// `b` is long enough for a header, starts with the magic bytes and carries
/// the delimiter at offset 72.
pub open spec fn spec_has_header(b: Seq<u8>) -> bool {
    &&& b.len() >= HEADER_SIZE
    &&& region8(b, 0) == MAGIC@
    &&& region8(b, 72) == DELIMITER@
}

/// The checks that apply to a complete (non-draft, non-compromised) header
/// whose flags are `flags`.
pub open spec fn spec_complete_header_ok(b: Seq<u8>, flags: u64) -> bool {
    &&& field_u64(b, 18) >= MAGIC_DATE
    &&& spec_flag_is_set(flags, DatumFlag::DatumOPC) ==> field_u32(b, 26) >= 1
    &&& spec_flag_is_set(flags, DatumFlag::DatumChecksum) ==> region8(b, 30) != EMPTY@
    &&& spec_flag_is_set(flags, DatumFlag::DatumEmpty) ==> {
        &&& field_u64(b, 38) >= 1
        &&& spec_flag_is_set(flags, DatumFlag::DatumCompressed) ==> field_u16(b, 46) >= 1
        &&& spec_flag_is_set(flags, DatumFlag::DatumEncrypted) ==> field_u16(b, 48) >= 1
        &&& spec_flag_is_set(flags, DatumFlag::DatumExtractable) ==> region8(b, 50) != EMPTY@
    }
    &&& spec_flag_is_set(flags, DatumFlag::DatumSigned) ==> field_u16(b, 50) >= 1
}

/// The validation cascade: a present header is valid when its version
/// predates the current one, when it is a draft or marked compromised, or
/// when it passes every check that its flags call for.
pub open spec fn spec_has_valid_header(b: Seq<u8>) -> bool {
    let flags = field_u64(b, 10);
    &&& spec_has_header(b)
    &&& (field_u16(b, 8) < VERSION || spec_flag_is_set(flags, DatumFlag::DatumDraft)
        || spec_flag_is_set(flags, DatumFlag::DatumCompromised)
        || spec_complete_header_ok(b, flags))
}

/// Whether the eight bytes of `data` from `off` equal `pattern`.
fn region_equals(data: &[u8], off: usize, pattern: &[u8; 8]) -> (r: bool)
    requires
        off + 8 <= data.len(),
    ensures
        r == (region8(data@, off as int) == pattern@),
{
    let mut k: usize = 0;
    while k < 8
        invariant
            off + 8 <= data.len(),
            k <= 8,
            forall|j: int| 0 <= j < k ==> data@[off + j] == pattern@[j],
        decreases 8 - k,
    {
        if data[off + k] != pattern[k] {
            assert(region8(data@, off as int)[k as int] != pattern@[k as int]);
            return false;
        }
        k = k + 1;
    }
    assert(region8(data@, off as int) =~= pattern@);
    true
}

fn read_u16(data: &[u8], off: usize) -> (r: u16)
    requires
        off + 2 <= data.len(),
    ensures
        r == field_u16(data@, off as int),
{
    u16_from_le_bytes(slice_subrange(data, off, off + 2))
}

fn read_u32(data: &[u8], off: usize) -> (r: u32)
    requires
        off + 4 <= data.len(),
    ensures
        r == field_u32(data@, off as int),
{
    u32_from_le_bytes(slice_subrange(data, off, off + 4))
}

fn read_u64(data: &[u8], off: usize) -> (r: u64)
    requires
        off + 8 <= data.len(),
    ensures
        r == field_u64(data@, off as int),
{
    u64_from_le_bytes(slice_subrange(data, off, off + 8))
}

/// Whether `data` plausibly holds a header: it is at least [`HEADER_SIZE`]
/// bytes long, starts with [`MAGIC`] and carries [`DELIMITER`] at offset 72.
/// No other byte is read.
pub fn has_header(data: &[u8]) -> (r: bool)
    ensures
        r == spec_has_header(data@),
{
    if data.len() < HEADER_SIZE {
        return false;
    }
    region_equals(data, 0, &MAGIC) && region_equals(data, 72, &DELIMITER)
}

/// Whether `data` holds a header that is present and internally consistent.
/// The checks run in a fixed order and the first one that decides ends the
/// cascade: presence, then the version, then the draft and compromised
/// flags, then the timestamp and the fields that the set flags make
/// mandatory.
pub fn has_valid_header(data: &[u8]) -> (r: bool)
    ensures
        r == spec_has_valid_header(data@),
{
    if !has_header(data) {
        return false;
    }
    let version = read_u16(data, 8);
    if version < VERSION {
        return true;
    }
    let flags = read_u64(data, 10);
    if flag_is_set(flags, DatumFlag::DatumDraft) || flag_is_set(flags, DatumFlag::DatumCompromised) {
        return true;
    }
    // Without the draft flag the timestamp is mandatory.
    let timestamp = read_u64(data, 18);
    if timestamp < MAGIC_DATE {
        return false;
    }
    if flag_is_set(flags, DatumFlag::DatumOPC) {
        let counter = read_u32(data, 26);
        if counter < 1 {
            return false;
        }
    }
    if flag_is_set(flags, DatumFlag::DatumChecksum) && region_equals(data, 30, &EMPTY) {
        return false;
    }
    if flag_is_set(flags, DatumFlag::DatumEmpty) {
        let size = read_u64(data, 38);
        if size < 1 {
            return false;
        }
        if flag_is_set(flags, DatumFlag::DatumCompressed) {
            let algorithm = read_u16(data, 46);
            if algorithm < 1 {
                return false;
            }
        }
        if flag_is_set(flags, DatumFlag::DatumEncrypted) {
            let algorithm = read_u16(data, 48);
            if algorithm < 1 {
                return false;
            }
        }
        // An extractable payload needs a name.
        if flag_is_set(flags, DatumFlag::DatumExtractable) && region_equals(data, 50, &EMPTY) {
            return false;
        }
    }
    // The signature's size depends on its type; only the type is required.
    if flag_is_set(flags, DatumFlag::DatumSigned) {
        let signature_type = read_u16(data, 50);
        if signature_type < 1 {
            return false;
        }
    }
    true
}

/// A decoded header. It owns every field, including the file extension text.
pub struct Header {
    /// The magic bytes as they were read.
    pub magic: [u8; 8],
    /// Format revision.
    pub version: u16,
    /// Feature flags, see [`DatumFlag`].
    pub flags: u64,
    /// Creation time in nanoseconds since the Unix epoch.
    pub timestamp: u64,
    /// Operation counter.
    pub opc: u32,
    /// Integrity value.
    pub checksum: u64,
    /// Total size of the object, header and signature included.
    pub size: u64,
    /// Compression algorithm, `0` for none.
    pub compression_alg: u16,
    /// Encryption algorithm, `0` for none.
    pub encryption_alg: u16,
    /// Signature algorithm, `0` for none.
    pub signature_type: u16,
    /// Size of the signature.
    pub signature_size: u32,
    /// File extension, at most eight bytes of UTF-8.
    pub file_ext: String,
    /// Eight bytes of the caller's own.
    pub custom: [u8; 8],
    /// The delimiter bytes as they were read.
    pub delimiter: [u8; 8],
}

/// The fields of a header as mathematical values.
pub struct HeaderView {
    pub magic: Seq<u8>,
    pub version: u16,
    pub flags: u64,
    pub timestamp: u64,
    pub opc: u32,
    pub checksum: u64,
    pub size: u64,
    pub compression_alg: u16,
    pub encryption_alg: u16,
    pub signature_type: u16,
    pub signature_size: u32,
    pub file_ext: Seq<char>,
    pub custom: Seq<u8>,
    pub delimiter: Seq<u8>,
}

impl View for Header {
    type V = HeaderView;

    open spec fn view(&self) -> HeaderView {
        HeaderView {
            magic: self.magic@,
            version: self.version,
            flags: self.flags,
            timestamp: self.timestamp,
            opc: self.opc,
            checksum: self.checksum,
            size: self.size,
            compression_alg: self.compression_alg,
            encryption_alg: self.encryption_alg,
            signature_type: self.signature_type,
            signature_size: self.signature_size,
            file_ext: self.file_ext@,
            custom: self.custom@,
            delimiter: self.delimiter@,
        }
    }
}

/// The header held by the first [`HEADER_SIZE`] bytes of `b`, every field at
/// its fixed offset, integers little-endian and the file extension decoded
/// as UTF-8.
pub open spec fn parse_header(b: Seq<u8>) -> HeaderView {
    HeaderView {
        magic: region8(b, 0),
        version: field_u16(b, 8),
        flags: field_u64(b, 10),
        timestamp: field_u64(b, 18),
        opc: field_u32(b, 26),
        checksum: field_u64(b, 30),
        size: field_u64(b, 38),
        compression_alg: field_u16(b, 46),
        encryption_alg: field_u16(b, 48),
        signature_type: field_u16(b, 50),
        signature_size: field_u32(b, 52),
        file_ext: decode_utf8(region8(b, 56)),
        custom: region8(b, 64),
        delimiter: region8(b, 72),
    }
}

/// The eight bytes of `data` from `off`, as an array.
fn region_array(data: &[u8], off: usize) -> (r: [u8; 8])
    requires
        off + 8 <= data.len(),
    ensures
        r@ == region8(data@, off as int),
{
    let r = [
        data[off],
        data[off + 1],
        data[off + 2],
        data[off + 3],
        data[off + 4],
        data[off + 5],
        data[off + 6],
        data[off + 7],
    ];
    assert(r@ =~= region8(data@, off as int));
    r
}

/// Relies on `std::str::from_utf8`: it succeeds exactly on well-formed UTF-8
/// and then yields the characters those bytes encode; on failure the error's
/// own description is kept.
#[verifier::external_body]
fn utf8_text(b: &[u8]) -> (r: Result<String, String>)
    ensures
        r is Ok <==> valid_utf8(b@),
        r matches Ok(s) ==> s@ == decode_utf8(b@),
{
    match std::str::from_utf8(b) {
        Ok(s) => Ok(s.to_owned()),
        Err(e) => Err(e.to_string()),
    }
}

/// Decodes the header at the start of `data`. Neither the magic bytes, the
/// delimiter nor the version are checked: see [`has_header`] and
/// [`has_valid_header`].
///
/// Fails with [`ErrorKind::IO`] when `data` is shorter than a header, and
/// with [`ErrorType::Custom`] when the file extension is not valid UTF-8.
pub fn decode_header(data: &[u8]) -> (r: Result<Header, ErrorType>)
    ensures
        data@.len() < HEADER_SIZE ==> r matches Err(ErrorType::Regular(ErrorKind::IO)),
        data@.len() >= HEADER_SIZE ==> (r is Ok <==> valid_utf8(region8(data@, 56))),
        data@.len() >= HEADER_SIZE && !valid_utf8(region8(data@, 56)) ==> r matches Err(
            ErrorType::Custom(_),
        ),
        r matches Ok(h) ==> h@ == parse_header(data@),
{
    if data.len() < HEADER_SIZE {
        return Err(ErrorType::Regular(ErrorKind::IO));
    }
    let file_ext = match utf8_text(slice_subrange(data, 56, 64)) {
        Ok(text) => text,
        Err(reason) => {
            return Err(ErrorType::Custom(reason));
        },
    };
    let header = Header {
        magic: region_array(data, 0),
        version: read_u16(data, 8),
        flags: read_u64(data, 10),
        timestamp: read_u64(data, 18),
        opc: read_u32(data, 26),
        checksum: read_u64(data, 30),
        size: read_u64(data, 38),
        compression_alg: read_u16(data, 46),
        encryption_alg: read_u16(data, 48),
        signature_type: read_u16(data, 50),
        signature_size: read_u32(data, 52),
        file_ext,
        custom: region_array(data, 64),
        delimiter: region_array(data, 72),
    };
    Ok(header)
}

/// The 80 bytes that hold `h`: every field at its offset, integers
/// little-endian, the file extension as UTF-8.
pub open spec fn header_bytes(h: HeaderView) -> Seq<u8> {
    h.magic + spec_u16_to_le_bytes(h.version) + spec_u64_to_le_bytes(h.flags)
        + spec_u64_to_le_bytes(h.timestamp) + spec_u32_to_le_bytes(h.opc) + spec_u64_to_le_bytes(
        h.checksum,
    ) + spec_u64_to_le_bytes(h.size) + spec_u16_to_le_bytes(h.compression_alg)
        + spec_u16_to_le_bytes(h.encryption_alg) + spec_u16_to_le_bytes(h.signature_type)
        + spec_u32_to_le_bytes(h.signature_size) + encode_utf8(h.file_ext) + h.custom + h.delimiter
}

/// A buffer shorter than a header neither holds one nor a valid one.
pub proof fn lemma_short_buffer_rejected(b: Seq<u8>)
    requires
        b.len() < HEADER_SIZE,
    ensures
        !spec_has_header(b),
        !spec_has_valid_header(b),
{
}

/// The probe reads the magic bytes and the delimiter and nothing else: two
/// buffers that agree there give the same answer, whatever their other bytes.
pub proof fn lemma_probe_reads_only_markers(a: Seq<u8>, b: Seq<u8>)
    requires
        a.len() >= HEADER_SIZE,
        b.len() >= HEADER_SIZE,
        region8(a, 0) == region8(b, 0),
        region8(a, 72) == region8(b, 72),
    ensures
        spec_has_header(a) == spec_has_header(b),
{
}

/// A valid header is a present one.
pub proof fn lemma_valid_implies_present(b: Seq<u8>)
    ensures
        spec_has_valid_header(b) ==> spec_has_header(b),
{
}

/// A present header older than the current version is valid, whatever its
/// other fields hold.
pub proof fn lemma_old_version_valid(b: Seq<u8>)
    requires
        spec_has_header(b),
        field_u16(b, 8) < VERSION,
    ensures
        spec_has_valid_header(b),
{
}

/// A present draft is valid, whatever its timestamp and the fields that
/// flags would otherwise make mandatory.
pub proof fn lemma_draft_valid(b: Seq<u8>)
    requires
        spec_has_header(b),
        spec_flag_is_set(field_u64(b, 10), DatumFlag::DatumDraft),
    ensures
        spec_has_valid_header(b),
{
}

/// A current, complete header that declares an operation counter is invalid
/// when the counter is zero.
pub proof fn lemma_opc_zero_invalid(b: Seq<u8>)
    requires
        field_u16(b, 8) >= VERSION,
        !spec_flag_is_set(field_u64(b, 10), DatumFlag::DatumDraft),
        !spec_flag_is_set(field_u64(b, 10), DatumFlag::DatumCompromised),
        spec_flag_is_set(field_u64(b, 10), DatumFlag::DatumOPC),
        field_u32(b, 26) == 0,
    ensures
        !spec_has_valid_header(b),
{
}

/// A present, current header whose only flag is the operation counter is
/// valid when its timestamp is late enough and its counter is at least one.
pub proof fn lemma_opc_set_valid(b: Seq<u8>)
    requires
        spec_has_header(b),
        field_u16(b, 8) >= VERSION,
        field_u64(b, 10) == DatumFlag::DatumOPC.spec_bit(),
        field_u64(b, 18) >= MAGIC_DATE,
        field_u32(b, 26) >= 1,
    ensures
        spec_has_valid_header(b),
{
    let f = field_u64(b, 10);
    assert(f == 16u64 ==> f & 1 == 0 && f & 2 == 0 && f & 4 == 0 && f & 8 == 0 && f & 256 == 0
        && f & 2048 == 0) by (bit_vector);
}

/// A current, complete, non-empty header that declares compression is
/// invalid when no compression algorithm is named.
pub proof fn lemma_compression_alg_required(b: Seq<u8>)
    requires
        field_u16(b, 8) >= VERSION,
        !spec_flag_is_set(field_u64(b, 10), DatumFlag::DatumDraft),
        !spec_flag_is_set(field_u64(b, 10), DatumFlag::DatumCompromised),
        spec_flag_is_set(field_u64(b, 10), DatumFlag::DatumEmpty),
        spec_flag_is_set(field_u64(b, 10), DatumFlag::DatumCompressed),
        field_u16(b, 46) == 0,
    ensures
        !spec_has_valid_header(b),
{
}

/// A present, current header whose flags are exactly `Empty` and
/// `Compressed` is valid when its timestamp is late enough, its size at
/// least one and a compression algorithm is named.
pub proof fn lemma_compression_alg_given_valid(b: Seq<u8>)
    requires
        spec_has_header(b),
        field_u16(b, 8) >= VERSION,
        field_u64(b, 10) == DatumFlag::DatumEmpty.spec_bit() | DatumFlag::DatumCompressed.spec_bit(),
        field_u64(b, 18) >= MAGIC_DATE,
        field_u64(b, 38) >= 1,
        field_u16(b, 46) >= 1,
    ensures
        spec_has_valid_header(b),
{
    let f = field_u64(b, 10);
    assert(f == (4u64 | 32u64) ==> f & 2 == 0 && f & 2048 == 0 && f & 16 == 0 && f & 8 == 0 && f
        & 4 != 0 && f & 32 != 0 && f & 64 == 0 && f & 128 == 0 && f & 256 == 0) by (bit_vector);
}

/// Decoding the bytes of a header gives back every one of its fields, the
/// file extension and the custom bytes byte for byte, provided the file
/// extension is exactly eight bytes of UTF-8.
pub proof fn lemma_round_trip(h: HeaderView)
    requires
        h.magic.len() == 8,
        h.custom.len() == 8,
        h.delimiter.len() == 8,
        encode_utf8(h.file_ext).len() == 8,
    ensures
        header_bytes(h).len() == HEADER_SIZE,
        valid_utf8(region8(header_bytes(h), 56)),
        parse_header(header_bytes(h)) == h,
{
    lemma_auto_spec_u16_to_from_le_bytes();
    lemma_auto_spec_u32_to_from_le_bytes();
    lemma_auto_spec_u64_to_from_le_bytes();
    let b = header_bytes(h);
    assert(b.subrange(0, 8) =~= h.magic);
    assert(b.subrange(8, 10) =~= spec_u16_to_le_bytes(h.version));
    assert(b.subrange(10, 18) =~= spec_u64_to_le_bytes(h.flags));
    assert(b.subrange(18, 26) =~= spec_u64_to_le_bytes(h.timestamp));
    assert(b.subrange(26, 30) =~= spec_u32_to_le_bytes(h.opc));
    assert(b.subrange(30, 38) =~= spec_u64_to_le_bytes(h.checksum));
    assert(b.subrange(38, 46) =~= spec_u64_to_le_bytes(h.size));
    assert(b.subrange(46, 48) =~= spec_u16_to_le_bytes(h.compression_alg));
    assert(b.subrange(48, 50) =~= spec_u16_to_le_bytes(h.encryption_alg));
    assert(b.subrange(50, 52) =~= spec_u16_to_le_bytes(h.signature_type));
    assert(b.subrange(52, 56) =~= spec_u32_to_le_bytes(h.signature_size));
    assert(b.subrange(56, 64) =~= encode_utf8(h.file_ext));
    assert(b.subrange(64, 72) =~= h.custom);
    assert(b.subrange(72, 80) =~= h.delimiter);
    encode_utf8_valid_utf8(h.file_ext);
    encode_utf8_decode_utf8(h.file_ext);
}

} // verus!
