//! The fixed-header binary format.
//!
//! Each record is one self-contained frame: an 8-byte header (the magic
//! constant `0x5950424E`, then the body length as a big-endian 32-bit
//! integer) followed by the body: a 46-byte fixed part and the raw
//! description bytes.  All multi-byte integers are big-endian.
//!
//! Description policy: the binary format carries the description bytes
//! literally, with no quoting added on encode and none stripped on decode,
//! so the binary round trip is lossless for every description.
//!
//! Two layers are offered.  The raw layer ([`BinRecord`],
//! [`parse_bin_records`], [`write_record_to`]) frames bytes without
//! interpreting the enumeration codes; [`YPBankBinRecords`] validates the
//! codes and yields [`TransactionRecord`]s.

use vstd::prelude::*;

use crate::bytes::{
    push_u32_be, push_u64_be, spec_u32_from_be, spec_u32_to_be, spec_u64_from_be, spec_u64_to_be,
    u32_from_be_at, u64_from_be_at,
};
use crate::error::{EncodeError, ErrV, ParseError};
use crate::{
    recs_view, spec_status_from_code, spec_tx_type_from_code, status_code, status_from_code,
    status_to_code, tx_type_code, tx_type_from_code, tx_type_to_code, RecordParser, RecordV,
    TransactionRecord,
};

verus! {

/// The constant `0x59 0x50 0x42 0x4E` (`"YPBN"`) that opens every frame header.
pub const MAGIC: u32 = 0x5950424E;

/// The size of the fixed part of a frame body.
pub const BODY_FIXED_PART_SIZE: usize = 8 +  // tx_id
    1 +  // tx_type
    8 +  // from_user_id
    8 +  // to_user_id
    8 +  // amount
    8 +  // timestamp
    1 +  // status
    4;  // desc_len

/// One frame body as it stands on the wire, enumeration codes uninterpreted.
#[derive(Debug)]
pub struct BinRecord {
    pub tx_type: u8,
    pub status: u8,
    pub desc_len: u32,
    pub tx_id: u64,
    pub from_user_id: u64,
    pub to_user_id: u64,
    pub amount: u64,
    pub timestamp: u64,
    pub description: Vec<u8>,
}

/// The mathematical value of a [`BinRecord`].
pub ghost struct BinRecV {
    pub tx_type: u8,
    pub status: u8,
    pub desc_len: u32,
    pub tx_id: u64,
    pub from_user_id: u64,
    pub to_user_id: u64,
    pub amount: u64,
    pub timestamp: u64,
    pub description: Seq<u8>,
}

impl View for BinRecord {
    type V = BinRecV;

    open spec fn view(&self) -> BinRecV {
        BinRecV {
            tx_type: self.tx_type,
            status: self.status,
            desc_len: self.desc_len,
            tx_id: self.tx_id,
            from_user_id: self.from_user_id,
            to_user_id: self.to_user_id,
            amount: self.amount,
            timestamp: self.timestamp,
            description: self.description@,
        }
    }
}

/// The raw frame a validated record is written as.
pub open spec fn bin_of(r: RecordV) -> BinRecV {
    BinRecV {
        tx_type: tx_type_code(r.tx_type),
        status: status_code(r.status),
        desc_len: r.description.len() as u32,
        tx_id: r.tx_id,
        from_user_id: r.from_user_id,
        to_user_id: r.to_user_id,
        amount: r.amount,
        timestamp: r.timestamp,
        description: r.description,
    }
}

/// Whether a record's description fits the 32-bit length field, so that a
/// frame can declare it.
pub open spec fn bin_desc_fits(r: RecordV) -> bool {
    r.description.len() <= u32::MAX - BODY_FIXED_PART_SIZE
}

/// The body bytes of one raw frame, in wire order.
pub open spec fn spec_frame_body(b: BinRecV) -> Seq<u8> {
    spec_u64_to_be(b.tx_id) + seq![b.tx_type] + spec_u64_to_be(b.from_user_id) + spec_u64_to_be(
        b.to_user_id,
    ) + spec_u64_to_be(b.amount) + spec_u64_to_be(b.timestamp) + seq![b.status] + spec_u32_to_be(
        b.desc_len,
    ) + b.description
}

/// The full bytes of one raw frame: header, then body.  The declared body
/// length counts the fixed part plus the declared description length.
pub open spec fn spec_frame(b: BinRecV) -> Seq<u8> {
    spec_u32_to_be(MAGIC) + spec_u32_to_be(
        (BODY_FIXED_PART_SIZE as int + b.desc_len as int) as u32,
    ) + spec_frame_body(b)
}

/// The binary encoding of a sequence of validated records.
pub open spec fn spec_bin_encode(rs: Seq<RecordV>) -> Seq<u8>
    decreases rs.len(),
{
    if rs.len() == 0 {
        Seq::empty()
    } else {
        spec_frame(bin_of(rs[0])) + spec_bin_encode(rs.skip(1))
    }
}

/// What one frame body of a given length decodes to under the validating
/// decoder: the fixed part must be complete, the enumeration codes must be
/// in range, and the declared description bytes must be present.
pub open spec fn spec_parse_body(body: Seq<u8>) -> Result<RecordV, ErrV> {
    if body.len() < BODY_FIXED_PART_SIZE {
        Err(ErrV::TruncatedRecord { have: body.len() as int })
    } else {
        let tc = body[8];
        if spec_tx_type_from_code(tc) is None {
            Err(ErrV::InvalidTxType { value: tc })
        } else {
            let sc = body[41];
            if spec_status_from_code(sc) is None {
                Err(ErrV::InvalidStatus { value: sc })
            } else {
                let dl = spec_u32_from_be(body.subrange(42, 46));
                if dl > body.len() - 46 {
                    Err(
                        ErrV::DescriptionBytes {
                            need: dl,
                            have: body.len() - BODY_FIXED_PART_SIZE,
                        },
                    )
                } else {
                    Ok(
                        RecordV {
                            tx_id: spec_u64_from_be(body.subrange(0, 8)),
                            tx_type: spec_tx_type_from_code(tc)->Some_0,
                            from_user_id: spec_u64_from_be(body.subrange(9, 17)),
                            to_user_id: spec_u64_from_be(body.subrange(17, 25)),
                            amount: spec_u64_from_be(body.subrange(25, 33)),
                            timestamp: spec_u64_from_be(body.subrange(33, 41)),
                            status: spec_status_from_code(sc)->Some_0,
                            description: body.subrange(46, 46 + dl),
                        },
                    )
                }
            }
        }
    }
}

/// What a byte stream decodes to under the validating decoder: back-to-back
/// frames until the stream is exhausted.  A stream that ends exactly between
/// frames is complete; one that ends inside a header or a body is truncated.
pub open spec fn spec_bin_decode(bytes: Seq<u8>) -> Result<Seq<RecordV>, ErrV>
    decreases bytes.len(),
{
    if bytes.len() == 0 {
        Ok(Seq::empty())
    } else if bytes.len() < 8 {
        Err(ErrV::TruncatedHeader { have: bytes.len() as int })
    } else {
        let magic = spec_u32_from_be(bytes.subrange(0, 4));
        if magic != MAGIC {
            Err(ErrV::InvalidMagic { found: magic })
        } else {
            let size = spec_u32_from_be(bytes.subrange(4, 8));
            if bytes.len() - 8 < size {
                Err(ErrV::TruncatedBody { need: size, have: bytes.len() - 8 })
            } else {
                match spec_parse_body(bytes.subrange(8, 8 + size)) {
                    Err(e) => Err(e),
                    Ok(r) => match spec_bin_decode(bytes.skip(8 + size)) {
                        Err(e) => Err(e),
                        Ok(rest) => Ok(seq![r] + rest),
                    },
                }
            }
        }
    }
}

/// The mathematical value of a sequence of raw frames.
pub open spec fn bin_recs_view(rs: Seq<BinRecord>) -> Seq<BinRecV> {
    rs.map_values(|r: BinRecord| r@)
}

/// What one frame body decodes to under the raw decoder: the fixed part
/// must be complete and the declared description bytes present, but the
/// enumeration codes are kept uninterpreted.
pub open spec fn spec_parse_frame_raw(body: Seq<u8>) -> Result<BinRecV, ErrV> {
    if body.len() < BODY_FIXED_PART_SIZE {
        Err(ErrV::TruncatedRecord { have: body.len() as int })
    } else {
        let dl = spec_u32_from_be(body.subrange(42, 46));
        if dl > body.len() - 46 {
            Err(ErrV::DescriptionBytes { need: dl, have: body.len() - BODY_FIXED_PART_SIZE })
        } else {
            Ok(
                BinRecV {
                    tx_type: body[8],
                    status: body[41],
                    desc_len: dl,
                    tx_id: spec_u64_from_be(body.subrange(0, 8)),
                    from_user_id: spec_u64_from_be(body.subrange(9, 17)),
                    to_user_id: spec_u64_from_be(body.subrange(17, 25)),
                    amount: spec_u64_from_be(body.subrange(25, 33)),
                    timestamp: spec_u64_from_be(body.subrange(33, 41)),
                    description: body.subrange(46, 46 + dl),
                },
            )
        }
    }
}

/// What a byte stream decodes to under the raw decoder.
pub open spec fn spec_bin_decode_raw(bytes: Seq<u8>) -> Result<Seq<BinRecV>, ErrV>
    decreases bytes.len(),
{
    if bytes.len() == 0 {
        Ok(Seq::empty())
    } else if bytes.len() < 8 {
        Err(ErrV::TruncatedHeader { have: bytes.len() as int })
    } else {
        let magic = spec_u32_from_be(bytes.subrange(0, 4));
        if magic != MAGIC {
            Err(ErrV::InvalidMagic { found: magic })
        } else {
            let size = spec_u32_from_be(bytes.subrange(4, 8));
            if bytes.len() - 8 < size {
                Err(ErrV::TruncatedBody { need: size, have: bytes.len() - 8 })
            } else {
                match spec_parse_frame_raw(bytes.subrange(8, 8 + size)) {
                    Err(e) => Err(e),
                    Ok(r) => match spec_bin_decode_raw(bytes.skip(8 + size)) {
                        Err(e) => Err(e),
                        Ok(rest) => Ok(seq![r] + rest),
                    },
                }
            }
        }
    }
}

/// Parses one frame body into a raw frame record.
fn parse_frame_raw(body: &[u8]) -> (r: Result<BinRecord, ParseError>)
    ensures
        match r {
            Ok(rec) => spec_parse_frame_raw(body@) == Ok::<BinRecV, ErrV>(rec@),
            Err(e) => spec_parse_frame_raw(body@) == Err::<BinRecV, ErrV>(e@),
        },
{
    if body.len() < BODY_FIXED_PART_SIZE {
        return Err(ParseError::TruncatedRecord { have: body.len() });
    }
    let dl = u32_from_be_at(body, 42);
    if dl as usize > body.len() - BODY_FIXED_PART_SIZE {
        return Err(
            ParseError::DescriptionBytes { need: dl, have: body.len() - BODY_FIXED_PART_SIZE },
        );
    }
    let mut description: Vec<u8> = Vec::new();
    let mut i: usize = 0;
    while i < dl as usize
        invariant
            i <= dl as usize,
            BODY_FIXED_PART_SIZE + dl as usize <= body.len(),
            description@ =~= body@.subrange(46, 46 + i),
        decreases dl as usize - i,
    {
        description.push(body[BODY_FIXED_PART_SIZE + i]);
        assert(description@ =~= body@.subrange(46, 46 + i + 1));
        i += 1;
    }
    let rec = BinRecord {
        tx_type: body[8],
        status: body[41],
        desc_len: dl,
        tx_id: u64_from_be_at(body, 0),
        from_user_id: u64_from_be_at(body, 9),
        to_user_id: u64_from_be_at(body, 17),
        amount: u64_from_be_at(body, 25),
        timestamp: u64_from_be_at(body, 33),
        description,
    };
    proof {
        assert(spec_parse_frame_raw(body@) == Ok::<BinRecV, ErrV>(rec@));
    }
    Ok(rec)
}

/// Decodes the single raw frame that starts at `pos`.
fn decode_frame_raw(data: &[u8], pos: usize) -> (r: Result<(BinRecord, usize), ParseError>)
    requires
        pos < data.len(),
    ensures
        match r {
            Ok((rec, new_pos)) => pos < new_pos <= data.len() && spec_bin_decode_raw(
                data@.skip(pos as int),
            ) == (match spec_bin_decode_raw(data@.skip(new_pos as int)) {
                Ok(rest) => Ok::<Seq<BinRecV>, ErrV>(seq![rec@] + rest),
                Err(e) => Err::<Seq<BinRecV>, ErrV>(e),
            }),
            Err(e) => spec_bin_decode_raw(data@.skip(pos as int)) == Err::<Seq<BinRecV>, ErrV>(e@),
        },
{
    let ghost rest = data@.skip(pos as int);
    let size = match read_bin_header(data, pos) {
        Ok(size) => size,
        Err(e) => {
            return Err(e);
        },
    };
    let body = vstd::slice::slice_subrange(data, pos + 8, pos + 8 + size as usize);
    proof {
        assert(body@ =~= rest.subrange(8, 8 + size));
    }
    match parse_frame_raw(body) {
        Ok(rec) => {
            let new_pos = pos + 8 + size as usize;
            proof {
                assert(data@.skip(new_pos as int) =~= rest.skip(8 + size));
            }
            Ok((rec, new_pos))
        },
        Err(e) => Err(e),
    }
}

/// Decodes a byte stream into raw frames, validating only the framing:
/// magic constants, declared body sizes, and declared description lengths.
pub fn parse_bin_records(data: &[u8]) -> (r: Result<Vec<BinRecord>, ParseError>)
    ensures
        match r {
            Ok(v) => spec_bin_decode_raw(data@) == Ok::<Seq<BinRecV>, ErrV>(bin_recs_view(v@)),
            Err(e) => spec_bin_decode_raw(data@) == Err::<Seq<BinRecV>, ErrV>(e@),
        },
{
    let mut records: Vec<BinRecord> = Vec::new();
    let mut pos: usize = 0;
    proof {
        assert(data@.skip(0int) =~= data@);
        assert(records@ =~= Seq::<BinRecord>::empty());
        match spec_bin_decode_raw(data@) {
            Ok(r0) => {
                assert(bin_recs_view(records@) + r0 =~= r0);
            },
            Err(_) => {},
        }
    }
    loop
        invariant
            pos <= data.len(),
            spec_bin_decode_raw(data@) == (match spec_bin_decode_raw(data@.skip(pos as int)) {
                Ok(rest) => Ok::<Seq<BinRecV>, ErrV>(bin_recs_view(records@) + rest),
                Err(e) => Err::<Seq<BinRecV>, ErrV>(e),
            }),
        decreases data.len() - pos,
    {
        if pos == data.len() {
            proof {
                assert(data@.skip(pos as int) =~= Seq::<u8>::empty());
                assert(bin_recs_view(records@) + Seq::<BinRecV>::empty() =~= bin_recs_view(
                    records@,
                ));
            }
            return Ok(records);
        }
        match decode_frame_raw(data, pos) {
            Ok((rec, new_pos)) => {
                let ghost old_records = records@;
                let ghost rec_v = rec@;
                records.push(rec);
                proof {
                    assert(bin_recs_view(records@) =~= bin_recs_view(old_records) + seq![rec_v]);
                    match spec_bin_decode_raw(data@.skip(new_pos as int)) {
                        Ok(r2) => {
                            assert(bin_recs_view(old_records) + (seq![rec_v] + r2)
                                =~= bin_recs_view(records@) + r2);
                        },
                        Err(_) => {},
                    }
                }
                pos = new_pos;
            },
            Err(e) => {
                return Err(e);
            },
        }
    }
}

/// What validating a raw frame yields: the enumeration codes must be in
/// range and the declared description length must match the bytes held.
pub open spec fn spec_from_bin(b: BinRecV) -> Result<RecordV, ErrV> {
    if spec_tx_type_from_code(b.tx_type) is None {
        Err(ErrV::InvalidTxType { value: b.tx_type })
    } else if spec_status_from_code(b.status) is None {
        Err(ErrV::InvalidStatus { value: b.status })
    } else if b.description.len() != b.desc_len {
        Err(ErrV::DescriptionLengthMismatch { expected: b.desc_len, actual: b.description.len() as int })
    } else {
        Ok(
            RecordV {
                tx_id: b.tx_id,
                tx_type: spec_tx_type_from_code(b.tx_type)->Some_0,
                from_user_id: b.from_user_id,
                to_user_id: b.to_user_id,
                amount: b.amount,
                timestamp: b.timestamp,
                status: spec_status_from_code(b.status)->Some_0,
                description: b.description,
            },
        )
    }
}

impl TransactionRecord {
    /// Validates a raw frame into a transaction record, consuming it.
    pub fn from_bin(record: BinRecord) -> (r: Result<TransactionRecord, ParseError>)
        ensures
            match r {
                Ok(rec) => spec_from_bin(record@) == Ok::<RecordV, ErrV>(rec@),
                Err(e) => spec_from_bin(record@) == Err::<RecordV, ErrV>(e@),
            },
    {
        let tx_type = match tx_type_from_code(record.tx_type) {
            Some(t) => t,
            None => {
                return Err(ParseError::InvalidTxType { value: record.tx_type });
            },
        };
        let status = match status_from_code(record.status) {
            Some(s) => s,
            None => {
                return Err(ParseError::InvalidStatus { value: record.status });
            },
        };
        if record.description.len() != record.desc_len as usize {
            return Err(
                ParseError::DescriptionLengthMismatch {
                    expected: record.desc_len,
                    actual: record.description.len(),
                },
            );
        }
        Ok(
            TransactionRecord {
                tx_id: record.tx_id,
                tx_type,
                from_user_id: record.from_user_id,
                to_user_id: record.to_user_id,
                amount: record.amount,
                timestamp: record.timestamp,
                status,
                description: record.description,
            },
        )
    }
}

/// Parses one frame body into a validated record.
///
/// Mirrors [`spec_parse_body`] exactly, error for error.
pub fn parse_record_from_bytes(body: &[u8]) -> (r: Result<TransactionRecord, ParseError>)
    ensures
        match r {
            Ok(rec) => spec_parse_body(body@) == Ok::<RecordV, ErrV>(rec@),
            Err(e) => spec_parse_body(body@) == Err::<RecordV, ErrV>(e@),
        },
{
    if body.len() < BODY_FIXED_PART_SIZE {
        return Err(ParseError::TruncatedRecord { have: body.len() });
    }
    let tx_id = u64_from_be_at(body, 0);
    let tc = body[8];
    let tx_type = match tx_type_from_code(tc) {
        Some(t) => t,
        None => {
            return Err(ParseError::InvalidTxType { value: tc });
        },
    };
    let from_user_id = u64_from_be_at(body, 9);
    let to_user_id = u64_from_be_at(body, 17);
    let amount = u64_from_be_at(body, 25);
    let timestamp = u64_from_be_at(body, 33);
    let sc = body[41];
    let status = match status_from_code(sc) {
        Some(s) => s,
        None => {
            return Err(ParseError::InvalidStatus { value: sc });
        },
    };
    let dl = u32_from_be_at(body, 42);
    if dl as usize > body.len() - BODY_FIXED_PART_SIZE {
        return Err(
            ParseError::DescriptionBytes { need: dl, have: body.len() - BODY_FIXED_PART_SIZE },
        );
    }
    let mut description: Vec<u8> = Vec::new();
    let mut i: usize = 0;
    while i < dl as usize
        invariant
            i <= dl as usize,
            BODY_FIXED_PART_SIZE + dl as usize <= body.len(),
            description@ =~= body@.subrange(46, 46 + i),
        decreases dl as usize - i,
    {
        description.push(body[BODY_FIXED_PART_SIZE + i]);
        assert(description@ =~= body@.subrange(46, 46 + i + 1));
        i += 1;
    }
    let rec = TransactionRecord {
        tx_id,
        tx_type,
        from_user_id,
        to_user_id,
        amount,
        timestamp,
        status,
        description,
    };
    proof {
        assert(spec_parse_body(body@) == Ok::<RecordV, ErrV>(rec@));
    }
    Ok(rec)
}

/// A record set read from and written to the binary format.
#[derive(Debug)]
pub struct YPBankBinRecords {
    /// The decoded transaction records, in stream order.
    pub records: Vec<TransactionRecord>,
}

impl View for YPBankBinRecords {
    type V = Seq<RecordV>;

    open spec fn view(&self) -> Seq<RecordV> {
        recs_view(self.records@)
    }
}

impl YPBankBinRecords {
    pub fn new(records: Vec<TransactionRecord>) -> (r: Self)
        ensures
            r.records == records,
    {
        YPBankBinRecords { records }
    }
}

/// Joining a decoded frame to a decoded tail decodes the whole stream.
proof fn lemma_bin_decode_step(bytes: Seq<u8>, size: u32)
    requires
        bytes.len() >= 8,
        spec_u32_from_be(bytes.subrange(0, 4)) == MAGIC,
        spec_u32_from_be(bytes.subrange(4, 8)) == size,
        bytes.len() - 8 >= size,
    ensures
        spec_bin_decode(bytes) == (match spec_parse_body(bytes.subrange(8, 8 + size)) {
            Err(e) => Err::<Seq<RecordV>, ErrV>(e),
            Ok(r) => match spec_bin_decode(bytes.skip(8 + size)) {
                Err(e) => Err(e),
                Ok(rest) => Ok(seq![r] + rest),
            },
        }),
{
}

/// Reads and validates the frame header at `pos`: the magic constant and
/// a declared body size that the stream can still supply.
fn read_bin_header(data: &[u8], pos: usize) -> (r: Result<u32, ParseError>)
    requires
        pos < data.len(),
    ensures
        match r {
            Ok(size) => pos + 8 + size <= data.len() && spec_u32_from_be(
                data@.skip(pos as int).subrange(0, 4),
            ) == MAGIC && spec_u32_from_be(data@.skip(pos as int).subrange(4, 8)) == size,
            Err(e) => spec_bin_decode(data@.skip(pos as int)) == Err::<Seq<RecordV>, ErrV>(e@)
                && spec_bin_decode_raw(data@.skip(pos as int)) == Err::<Seq<BinRecV>, ErrV>(e@),
        },
{
    let ghost rest = data@.skip(pos as int);
    if data.len() - pos < 8 {
        return Err(ParseError::TruncatedHeader { have: data.len() - pos });
    }
    let magic = u32_from_be_at(data, pos);
    proof {
        assert(rest.subrange(0, 4) =~= data@.subrange(pos as int, pos as int + 4));
    }
    if magic != MAGIC {
        return Err(ParseError::InvalidMagic { found: magic });
    }
    let size = u32_from_be_at(data, pos + 4);
    proof {
        assert(rest.subrange(4, 8) =~= data@.subrange(pos as int + 4, pos as int + 8));
    }
    if data.len() - pos - 8 < size as usize {
        return Err(ParseError::TruncatedBody { need: size, have: data.len() - pos - 8 });
    }
    Ok(size)
}

/// Decodes the single frame that starts at `pos`, returning the record and
/// the offset of the next frame.
#[verifier::rlimit(100)]
fn decode_frame(data: &[u8], pos: usize) -> (r: Result<(TransactionRecord, usize), ParseError>)
    requires
        pos < data.len(),
    ensures
        match r {
            Ok((rec, new_pos)) => pos < new_pos <= data.len() && spec_bin_decode(
                data@.skip(pos as int),
            ) == (match spec_bin_decode(data@.skip(new_pos as int)) {
                Ok(rest) => Ok::<Seq<RecordV>, ErrV>(seq![rec@] + rest),
                Err(e) => Err::<Seq<RecordV>, ErrV>(e),
            }),
            Err(e) => spec_bin_decode(data@.skip(pos as int)) == Err::<Seq<RecordV>, ErrV>(e@),
        },
{
    let ghost rest = data@.skip(pos as int);
    let size = match read_bin_header(data, pos) {
        Ok(size) => size,
        Err(e) => {
            return Err(e);
        },
    };
    let body = vstd::slice::slice_subrange(data, pos + 8, pos + 8 + size as usize);
    proof {
        assert(body@ =~= rest.subrange(8, 8 + size));
        lemma_bin_decode_step(rest, size);
    }
    match parse_record_from_bytes(body) {
        Ok(rec) => {
            let new_pos = pos + 8 + size as usize;
            proof {
                assert(data@.skip(new_pos as int) =~= rest.skip(8 + size));
            }
            Ok((rec, new_pos))
        },
        Err(e) => Err(e),
    }
}

impl RecordParser for YPBankBinRecords {
    /// Decodes a byte stream of back-to-back frames.
    ///
    /// Succeeds exactly when [`spec_bin_decode`] does, with the same
    /// records; fails with exactly the error [`spec_bin_decode`] names.
    #[verifier::rlimit(60)]
    fn from_read(data: &[u8]) -> (r: Result<Self, ParseError>)
        ensures
            match r {
                Ok(v) => spec_bin_decode(data@) == Ok::<Seq<RecordV>, ErrV>(v@),
                Err(e) => spec_bin_decode(data@) == Err::<Seq<RecordV>, ErrV>(e@),
            },
    {
        let mut records: Vec<TransactionRecord> = Vec::new();
        let mut pos: usize = 0;
        proof {
            assert(data@.skip(0int) =~= data@);
            assert(records@ =~= Seq::<TransactionRecord>::empty());
            match spec_bin_decode(data@) {
                Ok(r0) => {
                    assert(recs_view(records@) + r0 =~= r0);
                },
                Err(_) => {},
            }
        }
        loop
            invariant
                pos <= data.len(),
                spec_bin_decode(data@) == (match spec_bin_decode(data@.skip(pos as int)) {
                    Ok(rest) => Ok::<Seq<RecordV>, ErrV>(recs_view(records@) + rest),
                    Err(e) => Err::<Seq<RecordV>, ErrV>(e),
                }),
            decreases data.len() - pos,
        {
            if pos == data.len() {
                proof {
                    assert(data@.skip(pos as int) =~= Seq::<u8>::empty());
                    assert(recs_view(records@) + Seq::<RecordV>::empty() =~= recs_view(records@));
                }
                return Ok(YPBankBinRecords { records });
            }
            match decode_frame(data, pos) {
                Ok((rec, new_pos)) => {
                    let ghost old_records = records@;
                    let ghost rec_v = rec@;
                    records.push(rec);
                    proof {
                        assert(recs_view(records@) =~= recs_view(old_records) + seq![rec_v]);
                        match spec_bin_decode(data@.skip(new_pos as int)) {
                            Ok(r2) => {
                                assert(recs_view(old_records) + (seq![rec_v] + r2) =~= recs_view(
                                    records@,
                                ) + r2);
                            },
                            Err(_) => {},
                        }
                    }
                    pos = new_pos;
                },
                Err(e) => {
                    return Err(e);
                },
            }
        }
    }

    /// Encodes the records as back-to-back frames appended to `out`.
    ///
    /// Succeeds exactly when every description fits the 32-bit length
    /// field; on failure `out` is unchanged.
    fn write_to(&self, out: &mut Vec<u8>) -> (r: Result<(), EncodeError>)
        ensures
            match r {
                Ok(()) => (forall|i: int| 0 <= i < self@.len() ==> bin_desc_fits(#[trigger] self@[i]))
                    && final(out)@ == old(out)@ + spec_bin_encode(self@),
                Err(e) => (exists|i: int|
                    0 <= i < self@.len() && !bin_desc_fits(#[trigger] self@[i])) && final(out)@
                    == old(out)@,
            },
    {
        let n = self.records.len();
        let mut i: usize = 0;
        while i < n
            invariant
                n == self.records.len(),
                i <= n,
                forall|j: int| 0 <= j < i ==> bin_desc_fits(#[trigger] self@[j]),
            decreases n - i,
        {
            if self.records[i].description.len() > (u32::MAX as usize) - BODY_FIXED_PART_SIZE {
                assert(!bin_desc_fits(self@[i as int]));
                return Err(
                    EncodeError::DescriptionTooLong { len: self.records[i].description.len() },
                );
            }
            assert(bin_desc_fits(self@[i as int]));
            i += 1;
        }
        proof {
            assert(self@.len() == n);
            assert(self@.subrange(0, 0) =~= Seq::<RecordV>::empty());
        }
        let mut i: usize = 0;
        while i < n
            invariant
                n == self.records.len(),
                n == self@.len(),
                i <= n,
                forall|j: int| 0 <= j < self@.len() ==> bin_desc_fits(#[trigger] self@[j]),
                out@ == old(out)@ + spec_bin_encode(self@.subrange(0, i as int)),
            decreases n - i,
        {
            let rec = &self.records[i];
            proof {
                assert(self@[i as int] == self.records@[i as int]@);
                assert(bin_desc_fits(rec@));
            }
            let bin = bin_record_of(rec);
            write_record_to(out, &bin);
            proof {
                lemma_bin_encode_snoc(self@, i as int);
            }
            i += 1;
        }
        proof {
            assert(self@.subrange(0, self@.len() as int) =~= self@);
        }
        Ok(())
    }
}

/// Appending one more record extends the encoding by one frame.
#[verifier::rlimit(60)]
proof fn lemma_bin_encode_snoc(rs: Seq<RecordV>, i: int)
    requires
        0 <= i < rs.len(),
    ensures
        spec_bin_encode(rs.subrange(0, i + 1)) == spec_bin_encode(rs.subrange(0, i)) + spec_frame(
            bin_of(rs[i]),
        ),
    decreases i,
{
    if i == 0 {
        assert(rs.subrange(0, 1)[0] == rs[0]);
        assert(rs.subrange(0, 1).skip(1) =~= Seq::<RecordV>::empty());
        assert(rs.subrange(0, 0) =~= Seq::<RecordV>::empty());
        assert(spec_bin_encode(Seq::<RecordV>::empty()) =~= Seq::<u8>::empty());
        assert(spec_bin_encode(rs.subrange(0, 1)) =~= spec_frame(bin_of(rs[0]))
            + Seq::<u8>::empty());
        assert(spec_frame(bin_of(rs[0])) + Seq::<u8>::empty() =~= spec_frame(bin_of(rs[0])));
        assert(Seq::<u8>::empty() + spec_frame(bin_of(rs[0])) =~= spec_frame(bin_of(rs[0])));
    } else {
        lemma_bin_encode_snoc(rs.skip(1), i - 1);
        assert(rs.subrange(0, i + 1)[0] == rs[0]);
        assert(rs.subrange(0, i + 1).skip(1) =~= rs.skip(1).subrange(0, i));
        assert(rs.subrange(0, i)[0] == rs[0]);
        assert(rs.subrange(0, i).skip(1) =~= rs.skip(1).subrange(0, i - 1));
        assert(rs.skip(1)[i - 1] == rs[i]);
        assert(spec_bin_encode(rs.subrange(0, i + 1)) == spec_frame(bin_of(rs[0]))
            + spec_bin_encode(rs.skip(1).subrange(0, i)));
        assert(spec_bin_encode(rs.subrange(0, i)) == spec_frame(bin_of(rs[0])) + spec_bin_encode(
            rs.skip(1).subrange(0, i - 1),
        ));
        assert((spec_frame(bin_of(rs[0])) + (spec_bin_encode(rs.skip(1).subrange(0, i - 1))
            + spec_frame(bin_of(rs[i])))) =~= (spec_frame(bin_of(rs[0])) + spec_bin_encode(
            rs.skip(1).subrange(0, i - 1),
        )) + spec_frame(bin_of(rs[i])));
    }
}

/// The raw frame of a validated record, description length taken from the
/// description itself.
pub fn bin_record_of(rec: &TransactionRecord) -> (b: BinRecord)
    requires
        bin_desc_fits(rec@),
    ensures
        b@ == bin_of(rec@),
{
    let mut description: Vec<u8> = Vec::new();
    description.extend_from_slice(rec.description.as_slice());
    assert(description@ =~= rec.description@);
    BinRecord {
        tx_type: tx_type_to_code(rec.tx_type),
        status: status_to_code(rec.status),
        desc_len: rec.description.len() as u32,
        tx_id: rec.tx_id,
        from_user_id: rec.from_user_id,
        to_user_id: rec.to_user_id,
        amount: rec.amount,
        timestamp: rec.timestamp,
        description,
    }
}

/// The validating decoder recovers a record from its own frame body.
#[verifier::rlimit(100)]
proof fn lemma_parse_body_of_frame(r: RecordV)
    requires
        bin_desc_fits(r),
    ensures
        spec_frame_body(bin_of(r)).len() == BODY_FIXED_PART_SIZE + r.description.len(),
        spec_parse_body(spec_frame_body(bin_of(r))) == Ok::<RecordV, ErrV>(r),
{
    let b = bin_of(r);
    let body = spec_frame_body(b);
    let dl = b.desc_len;
    assert(body.len() == 46 + r.description.len());
    assert(body.subrange(0, 8) =~= spec_u64_to_be(b.tx_id));
    assert(body[8] == b.tx_type);
    assert(body.subrange(9, 17) =~= spec_u64_to_be(b.from_user_id));
    assert(body.subrange(17, 25) =~= spec_u64_to_be(b.to_user_id));
    assert(body.subrange(25, 33) =~= spec_u64_to_be(b.amount));
    assert(body.subrange(33, 41) =~= spec_u64_to_be(b.timestamp));
    assert(body[41] == b.status);
    assert(body.subrange(42, 46) =~= spec_u32_to_be(dl));
    crate::bytes::lemma_u64_be_round_trip(b.tx_id);
    crate::bytes::lemma_u64_be_round_trip(b.from_user_id);
    crate::bytes::lemma_u64_be_round_trip(b.to_user_id);
    crate::bytes::lemma_u64_be_round_trip(b.amount);
    crate::bytes::lemma_u64_be_round_trip(b.timestamp);
    crate::bytes::lemma_u32_be_round_trip(dl);
    assert(dl == r.description.len());
    assert(body.subrange(46, 46 + dl) =~= r.description);
    assert(spec_tx_type_from_code(b.tx_type) == Some(r.tx_type));
    assert(spec_status_from_code(b.status) == Some(r.status));
}

/// Binary round trip: decoding the encoding of any record set whose
/// descriptions fit the 32-bit length field yields the same record set.
#[verifier::rlimit(100)]
#[verifier::spinoff_prover]
pub proof fn lemma_bin_round_trip(rs: Seq<RecordV>)
    requires
        forall|i: int| 0 <= i < rs.len() ==> bin_desc_fits(#[trigger] rs[i]),
    ensures
        spec_bin_decode(spec_bin_encode(rs)) == Ok::<Seq<RecordV>, ErrV>(rs),
    decreases rs.len(),
{
    if rs.len() == 0 {
        assert(spec_bin_encode(rs) =~= Seq::<u8>::empty());
        assert(rs =~= Seq::<RecordV>::empty());
    } else {
        let r = rs[0];
        let b = bin_of(r);
        let frame = spec_frame(b);
        let tail = spec_bin_encode(rs.skip(1));
        let bytes = spec_bin_encode(rs);
        assert(bytes == frame + tail);
        lemma_parse_body_of_frame(r);
        let size = (BODY_FIXED_PART_SIZE as int + b.desc_len as int) as u32;
        assert(frame.len() == 8 + 46 + r.description.len());
        assert(bytes.len() >= 8);
        assert(bytes.subrange(0, 4) =~= spec_u32_to_be(MAGIC));
        assert(bytes.subrange(4, 8) =~= spec_u32_to_be(size));
        crate::bytes::lemma_u32_be_round_trip(MAGIC);
        crate::bytes::lemma_u32_be_round_trip(size);
        assert(size == 46 + r.description.len());
        assert(bytes.len() - 8 >= size);
        assert(bytes.subrange(8, 8 + size) =~= spec_frame_body(b));
        lemma_bin_decode_step(bytes, size);
        assert(bytes.skip(8 + size) =~= tail);
        assert(forall|i: int| 0 <= i < rs.skip(1).len() ==> bin_desc_fits(#[trigger] rs.skip(1)[i]));
        lemma_bin_round_trip(rs.skip(1));
        assert(seq![r] + rs.skip(1) =~= rs);
    }
}

/// Decoding an empty byte stream yields an empty record set, not an error.
pub proof fn lemma_bin_empty_input()
    ensures
        spec_bin_decode(Seq::empty()) == Ok::<Seq<RecordV>, ErrV>(Seq::empty()),
        spec_bin_decode_raw(Seq::empty()) == Ok::<Seq<BinRecV>, ErrV>(Seq::empty()),
{
}

/// Appends one raw frame: header, fixed fields, then the description bytes.
///
/// The body length field declares the fixed part plus the frame's own
/// `desc_len`, exactly as [`spec_frame`] states.
pub fn write_record_to(out: &mut Vec<u8>, record: &BinRecord)
    requires
        record.desc_len <= u32::MAX - BODY_FIXED_PART_SIZE,
    ensures
        final(out)@ == old(out)@ + spec_frame(record@),
{
    push_u32_be(out, MAGIC);
    push_u32_be(out, BODY_FIXED_PART_SIZE as u32 + record.desc_len);
    push_u64_be(out, record.tx_id);
    out.push(record.tx_type);
    push_u64_be(out, record.from_user_id);
    push_u64_be(out, record.to_user_id);
    push_u64_be(out, record.amount);
    push_u64_be(out, record.timestamp);
    out.push(record.status);
    push_u32_be(out, record.desc_len);
    out.extend_from_slice(record.description.as_slice());
    assert(out@ =~= old(out)@ + spec_frame(record@));
}


/// Magic validation: a stream whose header carries any constant other
/// than the magic fails to decode with an invalid-magic error naming it.
pub proof fn lemma_bin_invalid_magic(bytes: Seq<u8>)
    requires
        bytes.len() >= 8,
        spec_u32_from_be(bytes.subrange(0, 4)) != MAGIC,
    ensures
        spec_bin_decode(bytes) == Err::<Seq<RecordV>, ErrV>(
            ErrV::InvalidMagic { found: spec_u32_from_be(bytes.subrange(0, 4)) },
        ),
        spec_bin_decode_raw(bytes) == Err::<Seq<BinRecV>, ErrV>(
            ErrV::InvalidMagic { found: spec_u32_from_be(bytes.subrange(0, 4)) },
        ),
{
}

/// Invalid enumeration codes: a complete frame body whose type or status
/// byte lies outside the closed enumerations fails to decode with an
/// error naming the offending byte, the type byte taking precedence.
pub proof fn lemma_bin_invalid_codes(body: Seq<u8>)
    requires
        body.len() >= BODY_FIXED_PART_SIZE,
    ensures
        body[8] > 2 ==> spec_parse_body(body) == Err::<RecordV, ErrV>(
            ErrV::InvalidTxType { value: body[8] },
        ),
        body[8] <= 2 && body[41] > 2 ==> spec_parse_body(body) == Err::<RecordV, ErrV>(
            ErrV::InvalidStatus { value: body[41] },
        ),
{
}

/// Truncated description: a complete frame body that declares more
/// description bytes than it holds fails to decode with an error naming
/// the declared and the available count.
pub proof fn lemma_bin_truncated_description(body: Seq<u8>)
    requires
        body.len() >= BODY_FIXED_PART_SIZE,
        body[8] <= 2,
        body[41] <= 2,
        spec_u32_from_be(body.subrange(42, 46)) > body.len() - BODY_FIXED_PART_SIZE,
    ensures
        spec_parse_body(body) == Err::<RecordV, ErrV>(
            ErrV::DescriptionBytes {
                need: spec_u32_from_be(body.subrange(42, 46)),
                have: body.len() - BODY_FIXED_PART_SIZE,
            },
        ),
{
}

} // verus!
