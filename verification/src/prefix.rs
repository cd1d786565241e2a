//! What the start of a file already tells. An extraction reads no further
//! than the offset at which it stops: the bytes behind that offset do not
//! bear on its result. And an extraction that does not run into the end of a
//! prefix of a file gives the same on the whole file. A caller may therefore
//! hand over the start of a large file first, and more of it only when the
//! extraction ran out of bytes.

use vstd::prelude::*;
use crate::error::MkvError;
use crate::metadata::{
    after_info_child, lemma_scan_info_extent, lemma_scan_segment_extent, locate_fields,
    locate_in_segment, parse_metadata, scan_info_from, scan_segment_from, InfoFields, MkvMetadata,
    INFO_ID, SEGMENT_ID,
};
use crate::stream::{read_at, skip_at};
use crate::vint::{
    lemma_header_extent, parse_element_header, parse_element_id, parse_vint, vint_length,
    ElementHeader, VintMode,
};

verus! {

/// Whether a result is the failure of running out of bytes.
pub open spec fn ran_out<T>(result: Result<T, MkvError>) -> bool {
    result == Err::<T, MkvError>(MkvError::UnexpectedEof)
}

/// A variable-length integer that decodes in a prefix, or is invalid there,
/// is the same in the whole.
pub proof fn lemma_vint_prefix(part: Seq<u8>, whole: Seq<u8>, pos: nat, mode: VintMode)
    requires
        part.is_prefix_of(whole),
        !ran_out(parse_vint(part, pos, mode).0),
    ensures
        parse_vint(whole, pos, mode) == parse_vint(part, pos, mode),
{
    let length = vint_length(part[pos as int]);
    if length > 0 {
        assert(whole.subrange(pos as int, (pos + length) as int) =~= part.subrange(
            pos as int,
            (pos + length) as int,
        ));
    }
}

/// An identifier that decodes in a prefix, or is invalid there, is the same
/// in the whole.
pub proof fn lemma_element_id_prefix(part: Seq<u8>, whole: Seq<u8>, pos: nat)
    requires
        part.is_prefix_of(whole),
        !ran_out(parse_element_id(part, pos).0),
    ensures
        parse_element_id(whole, pos) == parse_element_id(part, pos),
{
    let length = vint_length(part[pos as int]);
    if 0 < length <= 4 {
        assert(whole.subrange(pos as int, (pos + length) as int) =~= part.subrange(
            pos as int,
            (pos + length) as int,
        ));
    }
}

/// A header that decodes in a prefix, or is invalid there, is the same in
/// the whole.
pub proof fn lemma_header_prefix(part: Seq<u8>, whole: Seq<u8>, pos: nat)
    requires
        part.is_prefix_of(whole),
        !ran_out(parse_element_header(part, pos).0),
    ensures
        parse_element_header(whole, pos) == parse_element_header(part, pos),
{
    lemma_element_id_prefix(part, whole, pos);
    if parse_element_id(part, pos).0 is Ok {
        lemma_vint_prefix(part, whole, parse_element_id(part, pos).1, VintMode::Size);
    }
}

/// A scan of an Info element that does not run out of a prefix gives the
/// same in the whole.
pub proof fn lemma_scan_info_prefix(
    part: Seq<u8>,
    whole: Seq<u8>,
    pos: nat,
    end: nat,
    found: InfoFields,
)
    requires
        part.is_prefix_of(whole),
        !ran_out(scan_info_from(part, pos, end, found).0),
    ensures
        scan_info_from(whole, pos, end, found) == scan_info_from(part, pos, end, found),
    decreases part.len() - pos,
{
    if pos < end {
        lemma_header_prefix(part, whole, pos);
        match parse_element_header(part, pos) {
            (Err(e), stop) => {},
            (Ok(header), body) => {
                lemma_header_extent(part, pos);
                let next = (body + header.size) as nat;
                assert(whole.subrange(body as int, next as int) =~= part.subrange(
                    body as int,
                    next as int,
                ));
                let updated = after_info_child(
                    found,
                    header.id,
                    part.subrange(body as int, next as int),
                );
                if !updated.complete() {
                    lemma_scan_info_prefix(part, whole, next, end, updated);
                }
            },
        }
    }
}

/// A scan of the Segment that does not run out of a prefix gives the same in
/// the whole.
pub proof fn lemma_scan_segment_prefix(
    part: Seq<u8>,
    whole: Seq<u8>,
    pos: nat,
    end: nat,
    last: InfoFields,
)
    requires
        part.is_prefix_of(whole),
        !ran_out(scan_segment_from(part, pos, end, last).0),
    ensures
        scan_segment_from(whole, pos, end, last) == scan_segment_from(part, pos, end, last),
    decreases part.len() - pos,
{
    if pos < end {
        lemma_header_prefix(part, whole, pos);
        match parse_element_header(part, pos) {
            (Err(e), stop) => {},
            (Ok(header), body) => {
                lemma_header_extent(part, pos);
                if header.id == INFO_ID {
                    let info_end = (body + header.size) as nat;
                    lemma_scan_info_prefix(part, whole, body, info_end, InfoFields::none());
                    lemma_scan_info_extent(part, body, info_end, InfoFields::none());
                    match scan_info_from(part, body, info_end, InfoFields::none()) {
                        (Err(e), stop) => {},
                        (Ok(fields), next) => {
                            if !fields.complete() {
                                lemma_scan_segment_prefix(part, whole, next, end, fields);
                            }
                        },
                    }
                } else {
                    lemma_scan_segment_prefix(
                        part,
                        whole,
                        (body + header.size) as nat,
                        end,
                        last,
                    );
                }
            },
        }
    }
}

/// An extraction that does not run out of a prefix of a file gives the same
/// on the whole file: the same record or the same failure, at the same
/// offset.
pub proof fn lemma_extraction_prefix(part: Seq<u8>, whole: Seq<u8>, pos: nat)
    requires
        part.is_prefix_of(whole),
        !ran_out(parse_metadata(part, pos).0),
    ensures
        parse_metadata(whole, pos) == parse_metadata(part, pos),
{
    assert(!ran_out(locate_fields(part, pos).0)) by {
        match locate_fields(part, pos) {
            (Err(e), stop) => {},
            (Ok(fields), stop) => {},
        }
    }
    match read_at(part, pos, 4) {
        (Err(e), stop) => {},
        (Ok(magic), after_magic) => {
            assert(whole.subrange(pos as int, pos as int + 4) =~= part.subrange(
                pos as int,
                pos as int + 4,
            ));
            if crate::vint::be_value(magic) == crate::metadata::EBML_HEADER_ID {
                lemma_vint_prefix(part, whole, after_magic, VintMode::Size);
                match parse_vint(part, after_magic, VintMode::Size) {
                    (Err(e), stop) => {},
                    (Ok(header_size), header_body) => {
                        match skip_at(part, header_body, header_size as nat) {
                            (Err(e), stop) => {},
                            (Ok(_), after_header) => {
                                lemma_element_id_prefix(part, whole, after_header);
                                match parse_element_id(part, after_header) {
                                    (Err(e), stop) => {},
                                    (Ok(id), after_id) => {
                                        if id == SEGMENT_ID {
                                            lemma_vint_prefix(
                                                part,
                                                whole,
                                                after_id,
                                                VintMode::Size,
                                            );
                                            match parse_vint(part, after_id, VintMode::Size) {
                                                (Err(e), stop) => {},
                                                (Ok(segment_size), body) => {
                                                    lemma_scan_segment_prefix(
                                                        part,
                                                        whole,
                                                        body,
                                                        (body + segment_size) as nat,
                                                        InfoFields::none(),
                                                    );
                                                },
                                            }
                                        }
                                    },
                                }
                            },
                        }
                    },
                }
            }
        },
    }
}

/// Decoding a variable-length integer reads no further than where it
/// stops.
pub proof fn lemma_vint_reads_no_further(part: Seq<u8>, whole: Seq<u8>, pos: nat, mode: VintMode)
    requires
        part.is_prefix_of(whole),
        parse_vint(whole, pos, mode).1 <= part.len(),
    ensures
        parse_vint(part, pos, mode) == parse_vint(whole, pos, mode),
{
    if pos < whole.len() {
        let length = vint_length(whole[pos as int]);
        if length > 0 && pos + length <= whole.len() {
            assert(whole.subrange(pos as int, (pos + length) as int) =~= part.subrange(
                pos as int,
                (pos + length) as int,
            ));
        }
    }
}

/// Decoding an identifier reads no further than where it stops.
pub proof fn lemma_element_id_reads_no_further(part: Seq<u8>, whole: Seq<u8>, pos: nat)
    requires
        part.is_prefix_of(whole),
        parse_element_id(whole, pos).1 <= part.len(),
    ensures
        parse_element_id(part, pos) == parse_element_id(whole, pos),
{
    if pos < whole.len() {
        let length = vint_length(whole[pos as int]);
        if 0 < length <= 4 && pos + length <= whole.len() {
            assert(whole.subrange(pos as int, (pos + length) as int) =~= part.subrange(
                pos as int,
                (pos + length) as int,
            ));
        }
    }
}

/// Decoding a header reads no further than where it stops.
pub proof fn lemma_header_reads_no_further(part: Seq<u8>, whole: Seq<u8>, pos: nat)
    requires
        part.is_prefix_of(whole),
        parse_element_header(whole, pos).1 <= part.len(),
    ensures
        parse_element_header(part, pos) == parse_element_header(whole, pos),
{
    match parse_element_id(whole, pos) {
        (Err(e), stop) => {
            lemma_element_id_reads_no_further(part, whole, pos);
        },
        (Ok(id), after_id) => {
            lemma_element_id_reads_no_further(part, whole, pos);
            lemma_vint_reads_no_further(part, whole, after_id, VintMode::Size);
        },
    }
}

/// A scan of an Info element reads no further than where it stops.
pub proof fn lemma_scan_info_reads_no_further(
    part: Seq<u8>,
    whole: Seq<u8>,
    pos: nat,
    end: nat,
    found: InfoFields,
)
    requires
        part.is_prefix_of(whole),
        pos <= whole.len(),
        scan_info_from(whole, pos, end, found).1 <= part.len(),
    ensures
        scan_info_from(part, pos, end, found) == scan_info_from(whole, pos, end, found),
    decreases whole.len() - pos,
{
    if pos < end {
        match parse_element_header(whole, pos) {
            (Err(e), stop) => {
                lemma_header_reads_no_further(part, whole, pos);
            },
            (Ok(header), body) => {
                lemma_header_extent(whole, pos);
                if body + header.size <= whole.len() {
                    let next = (body + header.size) as nat;
                    let updated = after_info_child(
                        found,
                        header.id,
                        whole.subrange(body as int, next as int),
                    );
                    if !updated.complete() {
                        lemma_scan_info_extent(whole, next, end, updated);
                    }
                    lemma_header_reads_no_further(part, whole, pos);
                    assert(whole.subrange(body as int, next as int) =~= part.subrange(
                        body as int,
                        next as int,
                    ));
                    if !updated.complete() {
                        lemma_scan_info_reads_no_further(part, whole, next, end, updated);
                    }
                } else {
                    lemma_header_reads_no_further(part, whole, pos);
                }
            },
        }
    }
}

/// A scan of the Segment reads no further than where it stops.
pub proof fn lemma_scan_segment_reads_no_further(
    part: Seq<u8>,
    whole: Seq<u8>,
    pos: nat,
    end: nat,
    last: InfoFields,
)
    requires
        part.is_prefix_of(whole),
        pos <= whole.len(),
        scan_segment_from(whole, pos, end, last).1 <= part.len(),
    ensures
        scan_segment_from(part, pos, end, last) == scan_segment_from(whole, pos, end, last),
    decreases whole.len() - pos,
{
    if pos < end {
        match parse_element_header(whole, pos) {
            (Err(e), stop) => {
                lemma_header_reads_no_further(part, whole, pos);
            },
            (Ok(header), body) => {
                lemma_header_extent(whole, pos);
                if header.id == INFO_ID {
                    let info_end = (body + header.size) as nat;
                    lemma_scan_info_extent(whole, body, info_end, InfoFields::none());
                    match scan_info_from(whole, body, info_end, InfoFields::none()) {
                        (Err(e), stop) => {
                            lemma_header_reads_no_further(part, whole, pos);
                            lemma_scan_info_reads_no_further(
                                part,
                                whole,
                                body,
                                info_end,
                                InfoFields::none(),
                            );
                        },
                        (Ok(fields), next) => {
                            if !fields.complete() {
                                lemma_scan_segment_extent(whole, next, end, fields);
                            }
                            lemma_header_reads_no_further(part, whole, pos);
                            lemma_scan_info_reads_no_further(
                                part,
                                whole,
                                body,
                                info_end,
                                InfoFields::none(),
                            );
                            if !fields.complete() {
                                lemma_scan_segment_reads_no_further(part, whole, next, end, fields);
                            }
                        },
                    }
                } else if body + header.size <= whole.len() {
                    let next = (body + header.size) as nat;
                    lemma_scan_segment_extent(whole, next, end, last);
                    lemma_header_reads_no_further(part, whole, pos);
                    lemma_scan_segment_reads_no_further(part, whole, next, end, last);
                } else {
                    lemma_header_reads_no_further(part, whole, pos);
                }
            },
        }
    }
}

/// An extraction reads no further than the offset at which it stops: on
/// every prefix of the file that reaches that offset it gives the same
/// record or the same failure, at the same offset.
pub proof fn lemma_extraction_reads_no_further(part: Seq<u8>, whole: Seq<u8>, pos: nat)
    requires
        part.is_prefix_of(whole),
        pos <= part.len(),
        parse_metadata(whole, pos).1 <= part.len(),
    ensures
        parse_metadata(part, pos) == parse_metadata(whole, pos),
{
    match read_at(whole, pos, 4) {
        (Err(e), stop) => {},
        (Ok(magic), after_magic) => {
            if crate::vint::be_value(magic) == crate::metadata::EBML_HEADER_ID {
                match parse_vint(whole, after_magic, VintMode::Size) {
                    (Err(e), stop) => {
                        lemma_vint_reads_no_further(part, whole, after_magic, VintMode::Size);
                        assert(whole.subrange(pos as int, pos as int + 4) =~= part.subrange(
                            pos as int,
                            pos as int + 4,
                        ));
                    },
                    (Ok(header_size), header_body) => {
                        match skip_at(whole, header_body, header_size as nat) {
                            (Err(e), stop) => {
                                lemma_vint_reads_no_further(
                                    part,
                                    whole,
                                    after_magic,
                                    VintMode::Size,
                                );
                                assert(whole.subrange(pos as int, pos as int + 4)
                                    =~= part.subrange(pos as int, pos as int + 4));
                            },
                            (Ok(_), after_header) => {
                                lemma_segment_reads_no_further(part, whole, after_header);
                                lemma_vint_reads_no_further(
                                    part,
                                    whole,
                                    after_magic,
                                    VintMode::Size,
                                );
                                assert(whole.subrange(pos as int, pos as int + 4)
                                    =~= part.subrange(pos as int, pos as int + 4));
                            },
                        }
                    },
                }
            } else {
                assert(whole.subrange(pos as int, pos as int + 4) =~= part.subrange(
                    pos as int,
                    pos as int + 4,
                ));
            }
        },
    }
}

/// The walk from the Segment's header reads no further than where it stops,
/// and stops behind where it starts.
pub proof fn lemma_segment_reads_no_further(part: Seq<u8>, whole: Seq<u8>, pos: nat)
    requires
        part.is_prefix_of(whole),
        pos <= whole.len(),
        locate_in_segment(whole, pos).1 <= part.len(),
    ensures
        locate_in_segment(part, pos) == locate_in_segment(whole, pos),
        pos <= locate_in_segment(whole, pos).1,
{
    match parse_element_id(whole, pos) {
        (Err(e), stop) => {
            lemma_element_id_reads_no_further(part, whole, pos);
        },
        (Ok(id), after_id) => {
            if id == SEGMENT_ID {
                match parse_vint(whole, after_id, VintMode::Size) {
                    (Err(e), stop) => {
                        lemma_element_id_reads_no_further(part, whole, pos);
                        lemma_vint_reads_no_further(part, whole, after_id, VintMode::Size);
                    },
                    (Ok(segment_size), body) => {
                        let end = (body + segment_size) as nat;
                        lemma_scan_segment_extent(whole, body, end, InfoFields::none());
                        lemma_element_id_reads_no_further(part, whole, pos);
                        lemma_vint_reads_no_further(part, whole, after_id, VintMode::Size);
                        lemma_scan_segment_reads_no_further(
                            part,
                            whole,
                            body,
                            end,
                            InfoFields::none(),
                        );
                    },
                }
            } else {
                lemma_element_id_reads_no_further(part, whole, pos);
            }
        },
    }
}

/// Whether the extraction from the first `have` bytes of a file of `total`
/// bytes settles what the file holds: it does unless it ran out of bytes
/// while the file has more.
pub fn settles(result: &Result<MkvMetadata, MkvError>, have: u64, total: u64) -> (r: bool)
    ensures
        r == (have >= total || !ran_out(*result)),
{
    if have >= total {
        return true;
    }
    match result {
        Err(MkvError::UnexpectedEof) => false,
        _ => true,
    }
}

/// The number of bytes to hand over after `have` bytes did not settle the
/// matter: eight times as many, at least 64 KiB, and never more than the
/// file holds.
pub fn next_prefix_len(have: u64, total: u64) -> (next: u64)
    ensures
        next <= total,
        have < total ==> have < next,
        have * 8 <= total && 0x1_0000 <= total ==> next >= have * 8 && next >= 0x1_0000,
{
    let grown = if have > u64::MAX / 8 {
        u64::MAX
    } else {
        have * 8
    };
    let wanted = if grown < 0x1_0000 {
        0x1_0000
    } else {
        grown
    };
    if wanted > total {
        total
    } else {
        wanted
    }
}

} // verus!
