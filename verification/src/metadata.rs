//! Recovering the playback duration of a Matroska/WebM file from its bytes:
//! the walk from the EBML header through the Segment into the Info element,
//! where the TimecodeScale and the Duration are stored.

use vstd::prelude::*;
use crate::error::MkvError;
use crate::stream::{read_at, skip_at, ByteReader};
use crate::vint::{
    be_value, bytes_to_u64, lemma_be_value_bound, lemma_header_extent, lemma_pow256_values,
    parse_element_header, parse_element_id, parse_vint, read_element_header, read_element_id,
    read_vint, ElementHeader, VintMode,
};

verus! {

/// The magic number that opens every EBML file.
pub const EBML_HEADER_ID: u32 = 0x1A45DFA3;

/// The identifier of the Segment, the top-level container.
pub const SEGMENT_ID: u32 = 0x18538067;

/// The identifier of the Info element inside the Segment.
pub const INFO_ID: u32 = 0x1549A966;

/// The identifier of the Duration inside the Info element.
pub const DURATION_ID: u32 = 0x4489;

/// The identifier of the TimecodeScale inside the Info element.
pub const TIMECODE_SCALE_ID: u32 = 0x2AD7B1;

/// A duration as the file stores it: the bits of an IEEE 754 number whose
/// unit is one tick of the timecode scale.
#[derive(Clone, Copy, Debug, PartialEq, Eq, Structural)]
pub enum RawDuration {
    /// A four-byte payload: the bits of a single-precision number.
    Single(u32),
    /// An eight-byte payload: the bits of a double-precision number.
    Double(u64),
    /// A payload of any other width, which counts as a duration of zero.
    Zero,
}

/// What an extraction returns: the number of nanoseconds in one tick, and the
/// duration in ticks.
#[derive(Clone, Copy, Debug, PartialEq, Eq, Structural)]
pub struct MkvMetadata {
    pub timecode_scale: u64,
    pub duration: RawDuration,
}

/// The two fields looked for in an Info element, each present once it was
/// seen.
#[derive(Clone, Copy, Debug, PartialEq, Eq, Structural)]
pub struct InfoFields {
    pub timecode_scale: Option<u64>,
    pub duration: Option<RawDuration>,
}

impl InfoFields {
    /// No field seen yet.
    pub open spec fn none() -> InfoFields {
        InfoFields { timecode_scale: None, duration: None }
    }

    /// Both fields were seen.
    pub open spec fn complete(self) -> bool {
        self.timecode_scale is Some && self.duration is Some
    }

    /// The record these fields make, or the error that names the first field
    /// that is absent.
    pub open spec fn finish(self) -> Result<MkvMetadata, MkvError> {
        match self.timecode_scale {
            None => Err(MkvError::MissingTimecodeScale),
            Some(timecode_scale) => match self.duration {
                None => Err(MkvError::MissingDuration),
                Some(duration) => Ok(MkvMetadata { timecode_scale, duration }),
            },
        }
    }
}

/// The duration that a payload stands for: the bits of a single for four
/// bytes, of a double for eight, and zero for every other width.
pub open spec fn duration_of(payload: Seq<u8>) -> RawDuration {
    if payload.len() == 4 {
        RawDuration::Single(be_value(payload) as u32)
    } else if payload.len() == 8 {
        RawDuration::Double(be_value(payload) as u64)
    } else {
        RawDuration::Zero
    }
}

/// The fields after a child of the Info element with the given identifier
/// and payload was read: a TimecodeScale or a Duration replaces what was
/// there, and any other child changes nothing.
///
/// The TimecodeScale is the big-endian value of its payload; of a payload of
/// more than eight bytes, the low 64 bits of that value count.
pub open spec fn after_info_child(found: InfoFields, id: u32, payload: Seq<u8>) -> InfoFields {
    if id == TIMECODE_SCALE_ID {
        InfoFields {
            timecode_scale: Some((be_value(payload) % 0x1_0000_0000_0000_0000) as u64),
            duration: found.duration,
        }
    } else if id == DURATION_ID {
        InfoFields { timecode_scale: found.timecode_scale, duration: Some(duration_of(payload)) }
    } else {
        found
    }
}

/// Scanning the children of an Info element from offset `pos` up to the
/// region's end `end`, with `found` seen so far: the fields seen when the scan
/// stops (at the end of the region, or as soon as both are there), or the
/// failure that ended it, and the offset where it stopped.
///
/// Each child is passed by exactly its declared size; a child whose payload
/// runs past the end of the stream is an end-of-stream failure at the start
/// of that payload.
pub open spec fn scan_info_from(bytes: Seq<u8>, pos: nat, end: nat, found: InfoFields) -> (
    Result<InfoFields, MkvError>,
    nat,
)
    decreases bytes.len() - pos,
{
    if pos >= end {
        (Ok(found), pos)
    } else {
        match parse_element_header(bytes, pos) {
            (Err(e), stop) => (Err(e), stop),
            (Ok(header), body) => {
                if body + header.size > bytes.len() {
                    (Err(MkvError::UnexpectedEof), body)
                } else {
                    let next = (body + header.size) as nat;
                    let updated = after_info_child(
                        found,
                        header.id,
                        bytes.subrange(body as int, next as int),
                    );
                    if updated.complete() {
                        (Ok(updated), next)
                    } else {
                        proof {
                            lemma_header_extent(bytes, pos);
                        }
                        scan_info_from(bytes, next, end, updated)
                    }
                }
            },
        }
    }
}

/// A scan of an Info element never moves backwards and never leaves the
/// stream.
pub proof fn lemma_scan_info_extent(bytes: Seq<u8>, pos: nat, end: nat, found: InfoFields)
    requires
        pos <= bytes.len(),
    ensures
        pos <= scan_info_from(bytes, pos, end, found).1 <= bytes.len(),
    decreases bytes.len() - pos,
{
    if pos < end {
        match parse_element_header(bytes, pos) {
            (Err(e), stop) => {},
            (Ok(header), body) => {
                lemma_header_extent(bytes, pos);
                if body + header.size <= bytes.len() {
                    let next = (body + header.size) as nat;
                    let updated = after_info_child(
                        found,
                        header.id,
                        bytes.subrange(body as int, next as int),
                    );
                    if !updated.complete() {
                        lemma_scan_info_extent(bytes, next, end, updated);
                    }
                }
            },
        }
    }
}

/// Scanning the children of the Segment from offset `pos` up to the
/// Segment's end `end`: the fields of the Info element that held both, or
/// else the fields that the last Info element scanned gave (`last` when there
/// was none), or the failure that ended the scan, and the offset where it
/// stopped.
///
/// An Info element is entered and scanned afresh; both fields have to come
/// from the same Info element. Every other child is passed by exactly its
/// declared size.
pub open spec fn scan_segment_from(bytes: Seq<u8>, pos: nat, end: nat, last: InfoFields) -> (
    Result<InfoFields, MkvError>,
    nat,
)
    decreases bytes.len() - pos,
{
    if pos >= end {
        (Ok(last), pos)
    } else {
        match parse_element_header(bytes, pos) {
            (Err(e), stop) => (Err(e), stop),
            (Ok(header), body) => {
                if header.id == INFO_ID {
                    match scan_info_from(
                        bytes,
                        body,
                        (body + header.size) as nat,
                        InfoFields::none(),
                    ) {
                        (Err(e), stop) => (Err(e), stop),
                        (Ok(fields), next) => {
                            if fields.complete() {
                                (Ok(fields), next)
                            } else {
                                proof {
                                    lemma_header_extent(bytes, pos);
                                    lemma_scan_info_extent(
                                        bytes,
                                        body,
                                        (body + header.size) as nat,
                                        InfoFields::none(),
                                    );
                                }
                                scan_segment_from(bytes, next, end, fields)
                            }
                        },
                    }
                } else if body + header.size > bytes.len() {
                    (Err(MkvError::UnexpectedEof), body)
                } else {
                    proof {
                        lemma_header_extent(bytes, pos);
                    }
                    scan_segment_from(bytes, (body + header.size) as nat, end, last)
                }
            },
        }
    }
}

/// A scan of the Segment never moves backwards and never leaves the
/// stream.
pub proof fn lemma_scan_segment_extent(bytes: Seq<u8>, pos: nat, end: nat, last: InfoFields)
    requires
        pos <= bytes.len(),
    ensures
        pos <= scan_segment_from(bytes, pos, end, last).1 <= bytes.len(),
    decreases bytes.len() - pos,
{
    if pos < end {
        match parse_element_header(bytes, pos) {
            (Err(e), stop) => {},
            (Ok(header), body) => {
                lemma_header_extent(bytes, pos);
                if header.id == INFO_ID {
                    let info_end = (body + header.size) as nat;
                    lemma_scan_info_extent(bytes, body, info_end, InfoFields::none());
                    match scan_info_from(bytes, body, info_end, InfoFields::none()) {
                        (Err(e), stop) => {},
                        (Ok(fields), next) => {
                            if !fields.complete() {
                                lemma_scan_segment_extent(bytes, next, end, fields);
                            }
                        },
                    }
                } else if body + header.size <= bytes.len() {
                    lemma_scan_segment_extent(bytes, (body + header.size) as nat, end, last);
                }
            },
        }
    }
}

/// Walking from the start of an EBML file at offset `pos` of `bytes` to the
/// fields of its Info element: the fields that the scan of the Segment gave,
/// or the failure that ended the walk, and the offset where it stopped.
///
/// The four bytes of the EBML magic come first, then the size of the EBML
/// header, whose body is passed over, then the Segment's identifier, which
/// has to be the next element's, and its size, then the Segment's children.
pub open spec fn locate_fields(bytes: Seq<u8>, pos: nat) -> (Result<InfoFields, MkvError>, nat) {
    match read_at(bytes, pos, 4) {
        (Err(e), stop) => (Err(e), stop),
        (Ok(magic), after_magic) => {
            if be_value(magic) != EBML_HEADER_ID {
                (Err(MkvError::InvalidHeader { found: be_value(magic) as u32 }), after_magic)
            } else {
                match parse_vint(bytes, after_magic, VintMode::Size) {
                    (Err(e), stop) => (Err(e), stop),
                    (Ok(header_size), header_body) => match skip_at(
                        bytes,
                        header_body,
                        header_size as nat,
                    ) {
                        (Err(e), stop) => (Err(e), stop),
                        (Ok(_), after_header) => locate_in_segment(bytes, after_header),
                    },
                }
            }
        },
    }
}

/// Walking from the header of the Segment at offset `pos` of `bytes` to the
/// fields of its Info element.
pub open spec fn locate_in_segment(bytes: Seq<u8>, pos: nat) -> (Result<InfoFields, MkvError>, nat) {
    match parse_element_id(bytes, pos) {
        (Err(e), stop) => (Err(e), stop),
        (Ok(id), after_id) => {
            if id != SEGMENT_ID {
                (Err(MkvError::MissingSegment { found: id }), after_id)
            } else {
                match parse_vint(bytes, after_id, VintMode::Size) {
                    (Err(e), stop) => (Err(e), stop),
                    (Ok(segment_size), body) => scan_segment_from(
                        bytes,
                        body,
                        (body + segment_size) as nat,
                        InfoFields::none(),
                    ),
                }
            }
        },
    }
}

/// Extracting the metadata from the stream `bytes` at offset `pos`: the
/// record when the walk found both fields, the failure of the walk, or the
/// failure that names the absent field, and the offset where the extraction
/// stopped.
pub open spec fn parse_metadata(bytes: Seq<u8>, pos: nat) -> (Result<MkvMetadata, MkvError>, nat) {
    match locate_fields(bytes, pos) {
        (Err(e), stop) => (Err(e), stop),
        (Ok(fields), stop) => (fields.finish(), stop),
    }
}

/// The duration that a payload stands for: the bits of a single for four
/// bytes, of a double for eight, and zero for every other width.
pub fn bytes_to_duration(buffer: &[u8]) -> (duration: RawDuration)
    ensures
        duration == duration_of(buffer@),
{
    proof {
        lemma_be_value_bound(buffer@);
        lemma_pow256_values();
    }
    if buffer.len() == 4 {
        RawDuration::Single(bytes_to_u64(buffer) as u32)
    } else if buffer.len() == 8 {
        RawDuration::Double(bytes_to_u64(buffer))
    } else {
        RawDuration::Zero
    }
}

/// Scans the children of an Info element, which the stream is positioned
/// in, up to the absolute offset `end`, and returns what it found of the two
/// fields. It stops as soon as both are there.
pub fn scan_info(reader: &mut ByteReader, end: u128) -> (r: Result<InfoFields, MkvError>)
    ensures
        final(reader).bytes() == old(reader).bytes(),
        final(reader).offset() <= final(reader).bytes().len(),
        (r, final(reader).offset()) == scan_info_from(
            old(reader).bytes(),
            old(reader).offset(),
            end as nat,
            InfoFields::none(),
        ),
{
    let ghost bytes = reader.bytes();
    let ghost start = reader.offset();
    let mut found = InfoFields { timecode_scale: None, duration: None };
    let _ = reader.position();
    loop
        invariant
            bytes == old(reader).bytes(),
            start == old(reader).offset(),
            reader.bytes() == bytes,
            reader.offset() <= bytes.len(),
            !found.complete(),
            scan_info_from(bytes, reader.offset(), end as nat, found) == scan_info_from(
                bytes,
                start,
                end as nat,
                InfoFields::none(),
            ),
        decreases bytes.len() - reader.offset(),
    {
        let ghost pos = reader.offset();
        if reader.position() as u128 >= end {
            return Ok(found);
        }
        let header = match read_element_header(reader) {
            Ok(h) => h,
            Err(e) => {
                return Err(e);
            },
        };
        proof {
            lemma_header_extent(bytes, pos);
        }
        if header.id == TIMECODE_SCALE_ID {
            let payload = match reader.read_exact(header.size) {
                Ok(p) => p,
                Err(e) => {
                    return Err(e);
                },
            };
            found.timecode_scale = Some(bytes_to_u64(payload.as_slice()));
        } else if header.id == DURATION_ID {
            let payload = match reader.read_exact(header.size) {
                Ok(p) => p,
                Err(e) => {
                    return Err(e);
                },
            };
            found.duration = Some(bytes_to_duration(payload.as_slice()));
        } else {
            match reader.skip(header.size) {
                Ok(_) => {},
                Err(e) => {
                    return Err(e);
                },
            }
        }
        if found.timecode_scale.is_some() && found.duration.is_some() {
            return Ok(found);
        }
    }
}

/// Scans the children of the Segment, which the stream is positioned in, up
/// to the absolute offset `end`. It enters each Info element, and stops as
/// soon as one of them held both fields.
pub fn scan_segment(reader: &mut ByteReader, end: u128) -> (r: Result<InfoFields, MkvError>)
    ensures
        final(reader).bytes() == old(reader).bytes(),
        final(reader).offset() <= final(reader).bytes().len(),
        (r, final(reader).offset()) == scan_segment_from(
            old(reader).bytes(),
            old(reader).offset(),
            end as nat,
            InfoFields::none(),
        ),
{
    let ghost bytes = reader.bytes();
    let ghost start = reader.offset();
    let mut last = InfoFields { timecode_scale: None, duration: None };
    let _ = reader.position();
    loop
        invariant
            bytes == old(reader).bytes(),
            start == old(reader).offset(),
            reader.bytes() == bytes,
            reader.offset() <= bytes.len(),
            scan_segment_from(bytes, reader.offset(), end as nat, last) == scan_segment_from(
                bytes,
                start,
                end as nat,
                InfoFields::none(),
            ),
        decreases bytes.len() - reader.offset(),
    {
        let ghost pos = reader.offset();
        if reader.position() as u128 >= end {
            return Ok(last);
        }
        let header = match read_element_header(reader) {
            Ok(h) => h,
            Err(e) => {
                return Err(e);
            },
        };
        proof {
            lemma_header_extent(bytes, pos);
        }
        if header.id == INFO_ID {
            let ghost body = reader.offset();
            let info_end: u128 = reader.position() as u128 + header.size as u128;
            proof {
                lemma_scan_info_extent(bytes, body, info_end as nat, InfoFields::none());
            }
            let fields = match scan_info(reader, info_end) {
                Ok(f) => f,
                Err(e) => {
                    return Err(e);
                },
            };
            if fields.timecode_scale.is_some() && fields.duration.is_some() {
                return Ok(fields);
            }
            last = fields;
        } else {
            match reader.skip(header.size) {
                Ok(_) => {},
                Err(e) => {
                    return Err(e);
                },
            }
        }
    }
}

/// Extracts the metadata from a stream positioned at the start of an EBML
/// file, and leaves the stream where the extraction stopped.
pub fn get_mkv_metadata(reader: &mut ByteReader) -> (r: Result<MkvMetadata, MkvError>)
    ensures
        final(reader).bytes() == old(reader).bytes(),
        final(reader).offset() <= final(reader).bytes().len(),
        (r, final(reader).offset()) == parse_metadata(old(reader).bytes(), old(reader).offset()),
{
    let magic = match reader.read_exact(4) {
        Ok(m) => m,
        Err(e) => {
            return Err(e);
        },
    };
    let found = bytes_to_u64(magic.as_slice());
    proof {
        lemma_be_value_bound(magic@);
        lemma_pow256_values();
    }
    if found != EBML_HEADER_ID as u64 {
        return Err(MkvError::InvalidHeader { found: found as u32 });
    }
    let header_size = match read_vint(reader) {
        Ok(n) => n,
        Err(e) => {
            return Err(e);
        },
    };
    match reader.skip(header_size) {
        Ok(_) => {},
        Err(e) => {
            return Err(e);
        },
    }
    let segment_id = match read_element_id(reader) {
        Ok(id) => id,
        Err(e) => {
            return Err(e);
        },
    };
    if segment_id != SEGMENT_ID {
        return Err(MkvError::MissingSegment { found: segment_id });
    }
    let segment_size = match read_vint(reader) {
        Ok(n) => n,
        Err(e) => {
            return Err(e);
        },
    };
    let segment_end: u128 = reader.position() as u128 + segment_size as u128;
    let fields = match scan_segment(reader, segment_end) {
        Ok(f) => f,
        Err(e) => {
            return Err(e);
        },
    };
    match fields.timecode_scale {
        None => Err(MkvError::MissingTimecodeScale),
        Some(timecode_scale) => match fields.duration {
            None => Err(MkvError::MissingDuration),
            Some(duration) => Ok(MkvMetadata { timecode_scale, duration }),
        },
    }
}

/// Extracts the metadata from the contents of an EBML file.
pub fn mkv_metadata(data: Vec<u8>) -> (r: Result<MkvMetadata, MkvError>)
    ensures
        r == parse_metadata(data@, 0).0,
{
    let mut reader = ByteReader::new(data);
    get_mkv_metadata(&mut reader)
}

/// A failure of an extraction with the offset at which the extraction
/// stopped.
#[derive(Clone, Copy, Debug, PartialEq, Eq, Structural)]
pub struct Failure {
    pub error: MkvError,
    pub offset: usize,
}

/// Extracts the metadata from the contents of an EBML file, and tells of a
/// failure where in the file it arose.
pub fn extract_duration_metadata(data: Vec<u8>) -> (r: Result<MkvMetadata, Failure>)
    ensures
        match r {
            Ok(record) => parse_metadata(data@, 0).0 == Ok::<MkvMetadata, MkvError>(record),
            Err(failure) => parse_metadata(data@, 0) == (
                Err::<MkvMetadata, MkvError>(failure.error),
                failure.offset as nat,
            ),
        },
{
    let mut reader = ByteReader::new(data);
    match get_mkv_metadata(&mut reader) {
        Ok(record) => Ok(record),
        Err(error) => Err(Failure { error, offset: reader.position() }),
    }
}

/// The four bytes of the EBML magic.
pub open spec fn ebml_magic() -> Seq<u8> {
    seq![0x1Au8, 0x45u8, 0xDFu8, 0xA3u8]
}

/// Whether some offset of `bytes` holds the header of an element with the
/// identifier `id`.
pub open spec fn has_element(bytes: Seq<u8>, id: u32) -> bool {
    exists|pos: nat|
        (#[trigger] parse_element_header(bytes, pos)).0 is Ok && parse_element_header(
            bytes,
            pos,
        ).0->Ok_0.id == id
}

/// The value of four digits.
pub proof fn lemma_be_value_of_four(digits: Seq<u8>)
    requires
        digits.len() == 4,
    ensures
        be_value(digits) == digits[0] as nat * 0x100_0000 + digits[1] as nat * 0x1_0000 + digits[2] as nat
            * 0x100 + digits[3] as nat,
{
    let three = digits.drop_last();
    let two = three.drop_last();
    let one = two.drop_last();
    assert(one.drop_last().len() == 0);
    assert(be_value(one.drop_last()) == 0);
    assert(be_value(one) == digits[0] as nat);
    assert(be_value(two) == be_value(one) * 256 + digits[1] as nat);
    assert(be_value(three) == be_value(two) * 256 + digits[2] as nat);
    assert(be_value(digits) == be_value(three) * 256 + digits[3] as nat);
}

/// A stream that holds four bytes at its offset fails on the header exactly
/// when those bytes are not the EBML magic, and then stops right behind them:
/// no further byte is consumed.
pub proof fn lemma_header_magic(bytes: Seq<u8>, pos: nat)
    requires
        pos + 4 <= bytes.len(),
    ensures
        bytes.subrange(pos as int, pos as int + 4) != ebml_magic() ==> parse_metadata(bytes, pos) == (
            Err::<MkvMetadata, MkvError>(
                MkvError::InvalidHeader {
                    found: be_value(bytes.subrange(pos as int, pos as int + 4)) as u32,
                },
            ),
            pos + 4,
        ) && parse_metadata(bytes, pos).0->Err_0.spec_kind() == crate::error::ErrorKind::Format,
        bytes.subrange(pos as int, pos as int + 4) == ebml_magic() ==> !(parse_metadata(
            bytes,
            pos,
        ).0 matches Err(MkvError::InvalidHeader { .. })),
{
    let magic = bytes.subrange(pos as int, pos as int + 4);
    lemma_be_value_of_four(magic);
    lemma_be_value_of_four(ebml_magic());
    if be_value(magic) == EBML_HEADER_ID {
        assert(magic[0] == 0x1A && magic[1] == 0x45 && magic[2] == 0xDF && magic[3] == 0xA3);
        assert(magic =~= ebml_magic());
    }
    if magic == ebml_magic() {
        let after_magic = pos + 4;
        match parse_vint(bytes, after_magic as nat, VintMode::Size) {
            (Err(e), stop) => {},
            (Ok(header_size), header_body) => {
                match skip_at(bytes, header_body, header_size as nat) {
                    (Err(e), stop) => {},
                    (Ok(_), after_header) => {
                        lemma_segment_never_invalid_header(bytes, after_header);
                    },
                }
            },
        }
    }
}

/// A scan of an Info element fails only at the end of the stream or on a
/// malformed header, and a Duration it reports was in `found` or stands in
/// the stream.
pub proof fn lemma_scan_info_outcome(bytes: Seq<u8>, pos: nat, end: nat, found: InfoFields)
    ensures
        scan_info_from(bytes, pos, end, found).0 is Err ==> {
            let e = scan_info_from(bytes, pos, end, found).0->Err_0;
            e == MkvError::UnexpectedEof || e == MkvError::InvalidVint || e
                == MkvError::InvalidElementId
        },
        scan_info_from(bytes, pos, end, found).0 is Ok && !has_element(bytes, DURATION_ID)
            ==> scan_info_from(bytes, pos, end, found).0->Ok_0.duration == found.duration,
        scan_info_from(bytes, pos, end, found).0 is Ok && !has_element(bytes, TIMECODE_SCALE_ID)
            ==> scan_info_from(bytes, pos, end, found).0->Ok_0.timecode_scale
            == found.timecode_scale,
    decreases bytes.len() - pos,
{
    if pos < end {
        match parse_element_header(bytes, pos) {
            (Err(e), stop) => {},
            (Ok(header), body) => {
                lemma_header_extent(bytes, pos);
                if body + header.size <= bytes.len() {
                    let next = (body + header.size) as nat;
                    let updated = after_info_child(
                        found,
                        header.id,
                        bytes.subrange(body as int, next as int),
                    );
                    if !updated.complete() {
                        lemma_scan_info_outcome(bytes, next, end, updated);
                    }
                }
            },
        }
    }
}

/// A scan of the Segment fails only at the end of the stream or on a
/// malformed header, and a Duration it reports was in `last` or stands in the
/// stream.
pub proof fn lemma_scan_segment_outcome(bytes: Seq<u8>, pos: nat, end: nat, last: InfoFields)
    ensures
        scan_segment_from(bytes, pos, end, last).0 is Err ==> {
            let e = scan_segment_from(bytes, pos, end, last).0->Err_0;
            e == MkvError::UnexpectedEof || e == MkvError::InvalidVint || e
                == MkvError::InvalidElementId
        },
        scan_segment_from(bytes, pos, end, last).0 is Ok && !has_element(bytes, DURATION_ID)
            && last.duration is None ==> scan_segment_from(bytes, pos, end, last).0->Ok_0.duration
            is None,
        scan_segment_from(bytes, pos, end, last).0 is Ok && !has_element(bytes, TIMECODE_SCALE_ID)
            && last.timecode_scale is None ==> scan_segment_from(
            bytes,
            pos,
            end,
            last,
        ).0->Ok_0.timecode_scale is None,
    decreases bytes.len() - pos,
{
    if pos < end {
        match parse_element_header(bytes, pos) {
            (Err(e), stop) => {},
            (Ok(header), body) => {
                lemma_header_extent(bytes, pos);
                if header.id == INFO_ID {
                    let info_end = (body + header.size) as nat;
                    lemma_scan_info_outcome(bytes, body, info_end, InfoFields::none());
                    lemma_scan_info_extent(bytes, body, info_end, InfoFields::none());
                    match scan_info_from(bytes, body, info_end, InfoFields::none()) {
                        (Err(e), stop) => {},
                        (Ok(fields), next) => {
                            if !fields.complete() {
                                lemma_scan_segment_outcome(bytes, next, end, fields);
                            }
                        },
                    }
                } else if body + header.size <= bytes.len() {
                    lemma_scan_segment_outcome(bytes, (body + header.size) as nat, end, last);
                }
            },
        }
    }
}

/// Past the EBML header no failure is the header's.
pub proof fn lemma_segment_never_invalid_header(bytes: Seq<u8>, pos: nat)
    ensures
        !(locate_in_segment(bytes, pos).0 matches Err(MkvError::InvalidHeader { .. })),
{
    match parse_element_id(bytes, pos) {
        (Err(e), stop) => {},
        (Ok(id), after_id) => {
            if id == SEGMENT_ID {
                match parse_vint(bytes, after_id, VintMode::Size) {
                    (Err(e), stop) => {},
                    (Ok(segment_size), body) => {
                        lemma_scan_segment_outcome(
                            bytes,
                            body,
                            (body + segment_size) as nat,
                            InfoFields::none(),
                        );
                    },
                }
            }
        },
    }
}

/// A stream that holds no Duration element never yields a record, and so no
/// zero duration: where the walk through the Segment meets no failure of its
/// own, the extraction ends in an incomplete-metadata failure. The same holds
/// of a stream without a TimecodeScale element, which fails with the error
/// that names the timecode scale.
pub proof fn lemma_absent_field_is_incomplete(bytes: Seq<u8>, pos: nat)
    ensures
        !has_element(bytes, DURATION_ID) ==> parse_metadata(bytes, pos).0 is Err,
        !has_element(bytes, DURATION_ID) && locate_fields(bytes, pos).0 is Ok ==> parse_metadata(
            bytes,
            pos,
        ).0->Err_0.spec_kind() == crate::error::ErrorKind::IncompleteMetadata,
        !has_element(bytes, TIMECODE_SCALE_ID) ==> parse_metadata(bytes, pos).0 is Err,
        !has_element(bytes, TIMECODE_SCALE_ID) && locate_fields(bytes, pos).0 is Ok
            ==> parse_metadata(bytes, pos).0 == Err::<MkvMetadata, MkvError>(
            MkvError::MissingTimecodeScale,
        ),
{
    match read_at(bytes, pos, 4) {
        (Err(e), stop) => {},
        (Ok(magic), after_magic) => {
            if be_value(magic) == EBML_HEADER_ID {
                match parse_vint(bytes, after_magic, VintMode::Size) {
                    (Err(e), stop) => {},
                    (Ok(header_size), header_body) => {
                        match skip_at(bytes, header_body, header_size as nat) {
                            (Err(e), stop) => {},
                            (Ok(_), after_header) => {
                                match parse_element_id(bytes, after_header) {
                                    (Err(e), stop) => {},
                                    (Ok(id), after_id) => {
                                        if id == SEGMENT_ID {
                                            match parse_vint(bytes, after_id, VintMode::Size) {
                                                (Err(e), stop) => {},
                                                (Ok(segment_size), body) => {
                                                    lemma_scan_segment_outcome(
                                                        bytes,
                                                        body,
                                                        (body + segment_size) as nat,
                                                        InfoFields::none(),
                                                    );
                                                },
                                            }
                                        }
                                    },
                                }
                            },
                        }
                    },
                }
            }
        },
    }
}

/// Inside an Info element, an element that is neither the TimecodeScale nor
/// the Duration is passed by exactly its declared size: the scan goes on at
/// the first byte behind its payload, where the next sibling starts, with the
/// fields unchanged.
pub proof fn lemma_info_skips_unknown(bytes: Seq<u8>, pos: nat, end: nat, found: InfoFields)
    requires
        pos < end,
        !found.complete(),
        parse_element_header(bytes, pos).0 is Ok,
        parse_element_header(bytes, pos).0->Ok_0.id != TIMECODE_SCALE_ID,
        parse_element_header(bytes, pos).0->Ok_0.id != DURATION_ID,
        parse_element_header(bytes, pos).1 + parse_element_header(bytes, pos).0->Ok_0.size
            <= bytes.len(),
    ensures
        scan_info_from(bytes, pos, end, found) == scan_info_from(
            bytes,
            (parse_element_header(bytes, pos).1 + parse_element_header(bytes, pos).0->Ok_0.size) as nat,
            end,
            found,
        ),
{
}

/// Inside the Segment, an element that is not the Info element is passed by
/// exactly its declared size: the scan goes on at the first byte behind its
/// payload, where the next sibling starts.
pub proof fn lemma_segment_skips_unknown(bytes: Seq<u8>, pos: nat, end: nat, last: InfoFields)
    requires
        pos < end,
        parse_element_header(bytes, pos).0 is Ok,
        parse_element_header(bytes, pos).0->Ok_0.id != INFO_ID,
        parse_element_header(bytes, pos).1 + parse_element_header(bytes, pos).0->Ok_0.size
            <= bytes.len(),
    ensures
        scan_segment_from(bytes, pos, end, last) == scan_segment_from(
            bytes,
            (parse_element_header(bytes, pos).1 + parse_element_header(bytes, pos).0->Ok_0.size) as nat,
            end,
            last,
        ),
{
}

} // verus!
