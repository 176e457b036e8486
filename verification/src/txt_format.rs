//! The block text format.
//!
//! Each record is one text block: an informational comment line, one
//! `KEY: value` line per field, and a blank line that closes the block.
//! On decode, comment lines are skipped, blank lines close blocks, every
//! other line must split into a key and a value at the first `": "`, and
//! double quotes in values are stripped.  A block must supply all eight
//! keys before it closes; input that ends inside a block closes it.

use vstd::prelude::*;

use crate::bytes::{
    find_last_byte, lines_view, parse_i32_bytes, parse_u64_bytes, push_dec_i32, push_dec_u64,
    spec_dec_i32, spec_dec_u64, spec_find_last, spec_parse_i32, spec_parse_u64, spec_split_lines,
    spec_strip_quotes, spec_trim, split_lines, strip_quotes, trim_bytes,
};
use crate::error::{
    bytes_eq_field_key, field_key, push_field_key, EncodeError, ErrV, Field, ParseError,
};
use crate::{
    lemma_name_bytes, push_status_name, push_tx_type_name, recs_view, spec_status_from_name,
    spec_tx_type_from_name, status_from_name, status_name, tx_type_from_name, tx_type_name,
    RecordParser, RecordV, Status, TransactionRecord, TxType,
};

verus! {

/// The `": "` separator of a key/value line.
pub open spec fn kv_sep() -> Seq<u8> {
    seq![58u8, 32u8]
}

/// One `KEY: value` line, without its newline.
pub open spec fn spec_kv_body(f: Field, value: Seq<u8>) -> Seq<u8> {
    field_key(f) + kv_sep() + value
}

/// One `KEY: value` line, newline included.
pub open spec fn spec_kv_line(f: Field, value: Seq<u8>) -> Seq<u8> {
    spec_kv_body(f, value) + seq![10u8]
}

/// The record-sequence tag of a description: its trailing space-separated
/// token read as a signed decimal number, or zero where none parses.
pub open spec fn spec_desc_tag(desc: Seq<u8>) -> i32 {
    let tok = match spec_find_last(desc, 32) {
        Some(i) => desc.skip(i + 1),
        None => desc,
    };
    match spec_parse_i32(tok) {
        Some(v) => v,
        None => 0,
    }
}

/// The leading comment line of a block, `# Record <tag> <type>`, without
/// its newline.
pub open spec fn spec_comment_body(r: RecordV) -> Seq<u8> {
    seq![35u8, 32u8, 82u8, 101u8, 99u8, 111u8, 114u8, 100u8, 32u8] + spec_dec_i32(
        spec_desc_tag(r.description),
    ) + seq![32u8] + tx_type_name(r.tx_type)
}

/// The leading comment line of a block, newline included.
pub open spec fn spec_comment_line(r: RecordV) -> Seq<u8> {
    spec_comment_body(r) + seq![10u8]
}

/// One encoded block: comment line, eight key/value lines in fixed order
/// with the description wrapped in double quotes, then a blank line.
pub open spec fn spec_txt_record(r: RecordV) -> Seq<u8> {
    spec_comment_line(r) + spec_kv_line(Field::TxId, spec_dec_u64(r.tx_id)) + spec_kv_line(
        Field::TxType,
        tx_type_name(r.tx_type),
    ) + spec_kv_line(Field::FromUserId, spec_dec_u64(r.from_user_id)) + spec_kv_line(
        Field::ToUserId,
        spec_dec_u64(r.to_user_id),
    ) + spec_kv_line(Field::Amount, spec_dec_u64(r.amount)) + spec_kv_line(
        Field::Timestamp,
        spec_dec_u64(r.timestamp),
    ) + spec_kv_line(Field::Status, status_name(r.status)) + spec_kv_line(
        Field::Description,
        seq![34u8] + r.description + seq![34u8],
    ) + seq![10u8]
}

/// The block-text encoding of a sequence of records.
pub open spec fn spec_txt_encode(rs: Seq<RecordV>) -> Seq<u8>
    decreases rs.len(),
{
    if rs.len() == 0 {
        Seq::empty()
    } else {
        spec_txt_record(rs[0]) + spec_txt_encode(rs.skip(1))
    }
}

/// The values collected for one block.  `touched` records whether any
/// data line has been seen, known keys or not: a block of only unknown
/// keys still closes as a (necessarily incomplete) record.
pub ghost struct AccV {
    pub tx_id: Option<Seq<u8>>,
    pub tx_type: Option<Seq<u8>>,
    pub from_user_id: Option<Seq<u8>>,
    pub to_user_id: Option<Seq<u8>>,
    pub amount: Option<Seq<u8>>,
    pub timestamp: Option<Seq<u8>>,
    pub status: Option<Seq<u8>>,
    pub description: Option<Seq<u8>>,
    pub touched: bool,
}

/// The state before any line of a block is read.
pub open spec fn empty_acc() -> AccV {
    AccV {
        tx_id: None,
        tx_type: None,
        from_user_id: None,
        to_user_id: None,
        amount: None,
        timestamp: None,
        status: None,
        description: None,
        touched: false,
    }
}

/// Where the first `": "` separator stands in a line, at or after `i`.
pub open spec fn spec_find_sep(l: Seq<u8>, i: int) -> Option<int>
    decreases l.len() - i,
{
    if i < 0 || i + 1 >= l.len() {
        None
    } else if l[i] == 58 && l[i + 1] == 32 {
        Some(i)
    } else {
        spec_find_sep(l, i + 1)
    }
}

/// The key and value of a data line, split at the first `": "`.
pub open spec fn spec_split_kv(l: Seq<u8>) -> Option<(Seq<u8>, Seq<u8>)> {
    match spec_find_sep(l, 0) {
        None => None,
        Some(i) => Some((l.subrange(0, i), l.skip(i + 2))),
    }
}

/// Stores a value under a key, overwriting any earlier value.  An unknown
/// key stores nothing but still marks the block as started.
pub open spec fn spec_set_key(acc: AccV, k: Seq<u8>, v: Seq<u8>) -> AccV {
    if k == field_key(Field::TxId) {
        AccV { tx_id: Some(v), touched: true, ..acc }
    } else if k == field_key(Field::TxType) {
        AccV { tx_type: Some(v), touched: true, ..acc }
    } else if k == field_key(Field::FromUserId) {
        AccV { from_user_id: Some(v), touched: true, ..acc }
    } else if k == field_key(Field::ToUserId) {
        AccV { to_user_id: Some(v), touched: true, ..acc }
    } else if k == field_key(Field::Amount) {
        AccV { amount: Some(v), touched: true, ..acc }
    } else if k == field_key(Field::Timestamp) {
        AccV { timestamp: Some(v), touched: true, ..acc }
    } else if k == field_key(Field::Status) {
        AccV { status: Some(v), touched: true, ..acc }
    } else if k == field_key(Field::Description) {
        AccV { description: Some(v), touched: true, ..acc }
    } else {
        AccV { touched: true, ..acc }
    }
}

/// Takes a collected value that must parse as an unsigned 64-bit integer.
pub open spec fn spec_take_u64(v: Option<Seq<u8>>, f: Field) -> Result<u64, ErrV> {
    match v {
        None => Err(ErrV::MissingKey { key: f }),
        Some(s) => match spec_parse_u64(s) {
            None => Err(ErrV::BadFieldValue { field: f, value: s }),
            Some(n) => Ok(n),
        },
    }
}

/// Takes the collected transaction-type value.
pub open spec fn spec_take_tx_type(v: Option<Seq<u8>>) -> Result<TxType, ErrV> {
    match v {
        None => Err(ErrV::MissingKey { key: Field::TxType }),
        Some(s) => match spec_tx_type_from_name(s) {
            None => Err(ErrV::BadFieldValue { field: Field::TxType, value: s }),
            Some(t) => Ok(t),
        },
    }
}

/// Takes the collected status value.
pub open spec fn spec_take_status(v: Option<Seq<u8>>) -> Result<Status, ErrV> {
    match v {
        None => Err(ErrV::MissingKey { key: Field::Status }),
        Some(s) => match spec_status_from_name(s) {
            None => Err(ErrV::BadFieldValue { field: Field::Status, value: s }),
            Some(t) => Ok(t),
        },
    }
}

/// Closes a block: each of the eight keys must have been collected, in
/// the fixed order of the record, and each value must parse.
pub open spec fn spec_finalize(acc: AccV) -> Result<RecordV, ErrV> {
    match spec_take_u64(acc.tx_id, Field::TxId) {
        Err(e) => Err(e),
        Ok(tx_id) => match spec_take_tx_type(acc.tx_type) {
            Err(e) => Err(e),
            Ok(tx_type) => match spec_take_u64(acc.from_user_id, Field::FromUserId) {
                Err(e) => Err(e),
                Ok(from_user_id) => match spec_take_u64(acc.to_user_id, Field::ToUserId) {
                    Err(e) => Err(e),
                    Ok(to_user_id) => match spec_take_u64(acc.amount, Field::Amount) {
                        Err(e) => Err(e),
                        Ok(amount) => match spec_take_u64(acc.timestamp, Field::Timestamp) {
                            Err(e) => Err(e),
                            Ok(timestamp) => match spec_take_status(acc.status) {
                                Err(e) => Err(e),
                                Ok(status) => match acc.description {
                                    None => Err(ErrV::MissingKey { key: Field::Description }),
                                    Some(description) => Ok(
                                        RecordV {
                                            tx_id,
                                            tx_type,
                                            from_user_id,
                                            to_user_id,
                                            amount,
                                            timestamp,
                                            status,
                                            description,
                                        },
                                    ),
                                },
                            },
                        },
                    },
                },
            },
        },
    }
}

/// What a sequence of lines decodes to, given the block collected so far
/// and the records already closed.
pub open spec fn spec_txt_decode_lines(
    lines: Seq<Seq<u8>>,
    acc: AccV,
    done: Seq<RecordV>,
) -> Result<Seq<RecordV>, ErrV>
    decreases lines.len(),
{
    if lines.len() == 0 {
        if acc.touched {
            match spec_finalize(acc) {
                Ok(r) => Ok(done + seq![r]),
                Err(e) => Err(e),
            }
        } else {
            Ok(done)
        }
    } else {
        let l = spec_trim(lines[0]);
        if l.len() > 0 && l[0] == 35 {
            spec_txt_decode_lines(lines.skip(1), acc, done)
        } else if l.len() == 0 {
            if acc.touched {
                match spec_finalize(acc) {
                    Ok(r) => spec_txt_decode_lines(lines.skip(1), empty_acc(), done + seq![r]),
                    Err(e) => Err(e),
                }
            } else {
                spec_txt_decode_lines(lines.skip(1), acc, done)
            }
        } else {
            match spec_split_kv(l) {
                None => Err(ErrV::MalformedLine { line: l }),
                Some(kv) => spec_txt_decode_lines(
                    lines.skip(1),
                    spec_set_key(acc, kv.0, spec_strip_quotes(kv.1)),
                    done,
                ),
            }
        }
    }
}

/// What a byte stream decodes to under the block-text decoder.
pub open spec fn spec_txt_decode(bytes: Seq<u8>) -> Result<Seq<RecordV>, ErrV> {
    spec_txt_decode_lines(spec_split_lines(bytes), empty_acc(), Seq::empty())
}

/// The values collected for one block, as the decoder holds them.
struct Acc {
    tx_id: Option<Vec<u8>>,
    tx_type: Option<Vec<u8>>,
    from_user_id: Option<Vec<u8>>,
    to_user_id: Option<Vec<u8>>,
    amount: Option<Vec<u8>>,
    timestamp: Option<Vec<u8>>,
    status: Option<Vec<u8>>,
    description: Option<Vec<u8>>,
    touched: bool,
}

impl View for Acc {
    type V = AccV;

    closed spec fn view(&self) -> AccV {
        AccV {
            tx_id: match self.tx_id {
                Some(ref v) => Some(v@),
                None => None,
            },
            tx_type: match self.tx_type {
                Some(ref v) => Some(v@),
                None => None,
            },
            from_user_id: match self.from_user_id {
                Some(ref v) => Some(v@),
                None => None,
            },
            to_user_id: match self.to_user_id {
                Some(ref v) => Some(v@),
                None => None,
            },
            amount: match self.amount {
                Some(ref v) => Some(v@),
                None => None,
            },
            timestamp: match self.timestamp {
                Some(ref v) => Some(v@),
                None => None,
            },
            status: match self.status {
                Some(ref v) => Some(v@),
                None => None,
            },
            description: match self.description {
                Some(ref v) => Some(v@),
                None => None,
            },
            touched: self.touched,
        }
    }
}

impl Acc {
    fn new() -> (r: Acc)
        ensures
            r@ == empty_acc(),
    {
        Acc {
            tx_id: None,
            tx_type: None,
            from_user_id: None,
            to_user_id: None,
            amount: None,
            timestamp: None,
            status: None,
            description: None,
            touched: false,
        }
    }
}

/// Stores a trimmed data line's value under its key.
fn set_key(acc: &mut Acc, k: &[u8], v: Vec<u8>)
    ensures
        final(acc)@ == spec_set_key(old(acc)@, k@, v@),
{
    acc.touched = true;
    if bytes_eq_field_key(k, Field::TxId) {
        acc.tx_id = Some(v);
    } else if bytes_eq_field_key(k, Field::TxType) {
        acc.tx_type = Some(v);
    } else if bytes_eq_field_key(k, Field::FromUserId) {
        acc.from_user_id = Some(v);
    } else if bytes_eq_field_key(k, Field::ToUserId) {
        acc.to_user_id = Some(v);
    } else if bytes_eq_field_key(k, Field::Amount) {
        acc.amount = Some(v);
    } else if bytes_eq_field_key(k, Field::Timestamp) {
        acc.timestamp = Some(v);
    } else if bytes_eq_field_key(k, Field::Status) {
        acc.status = Some(v);
    } else if bytes_eq_field_key(k, Field::Description) {
        acc.description = Some(v);
    }
}

/// Takes and parses a collected unsigned integer value.
fn take_u64(v: Option<Vec<u8>>, f: Field) -> (r: Result<u64, ParseError>)
    ensures
        match r {
            Ok(n) => spec_take_u64(
                match v {
                    Some(s) => Some(s@),
                    None => None,
                },
                f,
            ) == Ok::<u64, ErrV>(n),
            Err(e) => spec_take_u64(
                match v {
                    Some(s) => Some(s@),
                    None => None,
                },
                f,
            ) == Err::<u64, ErrV>(e@),
        },
{
    match v {
        None => Err(ParseError::MissingKey { key: f }),
        Some(s) => match parse_u64_bytes(s.as_slice()) {
            None => Err(ParseError::BadFieldValue { field: f, value: s }),
            Some(n) => Ok(n),
        },
    }
}

/// Closes a block into a record.
fn finalize_block(acc: Acc) -> (r: Result<TransactionRecord, ParseError>)
    ensures
        match r {
            Ok(rec) => spec_finalize(acc@) == Ok::<RecordV, ErrV>(rec@),
            Err(e) => spec_finalize(acc@) == Err::<RecordV, ErrV>(e@),
        },
{
    let tx_id = match take_u64(acc.tx_id, Field::TxId) {
        Ok(n) => n,
        Err(e) => {
            return Err(e);
        },
    };
    let tx_type = match acc.tx_type {
        None => {
            return Err(ParseError::MissingKey { key: Field::TxType });
        },
        Some(s) => match tx_type_from_name(s.as_slice()) {
            None => {
                return Err(ParseError::BadFieldValue { field: Field::TxType, value: s });
            },
            Some(t) => t,
        },
    };
    let from_user_id = match take_u64(acc.from_user_id, Field::FromUserId) {
        Ok(n) => n,
        Err(e) => {
            return Err(e);
        },
    };
    let to_user_id = match take_u64(acc.to_user_id, Field::ToUserId) {
        Ok(n) => n,
        Err(e) => {
            return Err(e);
        },
    };
    let amount = match take_u64(acc.amount, Field::Amount) {
        Ok(n) => n,
        Err(e) => {
            return Err(e);
        },
    };
    let timestamp = match take_u64(acc.timestamp, Field::Timestamp) {
        Ok(n) => n,
        Err(e) => {
            return Err(e);
        },
    };
    let status = match acc.status {
        None => {
            return Err(ParseError::MissingKey { key: Field::Status });
        },
        Some(s) => match status_from_name(s.as_slice()) {
            None => {
                return Err(ParseError::BadFieldValue { field: Field::Status, value: s });
            },
            Some(t) => t,
        },
    };
    let description = match acc.description {
        None => {
            return Err(ParseError::MissingKey { key: Field::Description });
        },
        Some(s) => s,
    };
    Ok(
        TransactionRecord {
            tx_id,
            tx_type,
            from_user_id,
            to_user_id,
            amount,
            timestamp,
            status,
            description,
        },
    )
}

/// Finds the first `": "` separator of a line.
fn find_sep(l: &[u8]) -> (r: Option<usize>)
    ensures
        match r {
            Some(i) => spec_find_sep(l@, 0) == Some(i as int) && i + 1 < l@.len(),
            None => spec_find_sep(l@, 0) == None::<int>,
        },
{
    if l.len() < 2 {
        return None;
    }
    let mut i: usize = 0;
    while i < l.len() - 1
        invariant
            l.len() >= 2,
            i <= l.len(),
            spec_find_sep(l@, 0) == spec_find_sep(l@, i as int),
        decreases l.len() - i,
    {
        if l[i] == 58 && l[i + 1] == 32 {
            return Some(i);
        }
        i += 1;
    }
    None
}

/// A record set read from and written to the block text format.
#[derive(Debug)]
pub struct YPBankTxtRecords {
    /// The decoded transaction records, in stream order.
    pub records: Vec<TransactionRecord>,
}

impl View for YPBankTxtRecords {
    type V = Seq<RecordV>;

    open spec fn view(&self) -> Seq<RecordV> {
        recs_view(self.records@)
    }
}

impl YPBankTxtRecords {
    pub fn new(records: Vec<TransactionRecord>) -> (r: Self)
        ensures
            r.records == records,
    {
        YPBankTxtRecords { records }
    }
}

impl RecordParser for YPBankTxtRecords {
    /// Decodes a stream of text blocks.
    ///
    /// Succeeds exactly when [`spec_txt_decode`] does, with the same
    /// records; fails with exactly the error [`spec_txt_decode`] names.
    fn from_read(data: &[u8]) -> (r: Result<Self, ParseError>)
        ensures
            match r {
                Ok(v) => spec_txt_decode(data@) == Ok::<Seq<RecordV>, ErrV>(v@),
                Err(e) => spec_txt_decode(data@) == Err::<Seq<RecordV>, ErrV>(e@),
            },
    {
        let lines = split_lines(data);
        let ghost lv = spec_split_lines(data@);
        let mut records: Vec<TransactionRecord> = Vec::new();
        let mut acc = Acc::new();
        let mut i: usize = 0;
        proof {
            assert(lines_view(lines@) == lv);
            assert(lv.skip(0int) =~= lv);
            assert(records@ =~= Seq::<TransactionRecord>::empty());
            assert(recs_view(records@) =~= Seq::<RecordV>::empty());
        }
        while i < lines.len()
            invariant
                i <= lines.len(),
                lines_view(lines@) == lv,
                lv.len() == lines.len(),
                spec_txt_decode(data@) == spec_txt_decode_lines(
                    lv.skip(i as int),
                    acc@,
                    recs_view(records@),
                ),
            decreases lines.len() - i,
        {
            let ghost pre = lv.skip(i as int);
            proof {
                assert(pre[0] == lv[i as int]);
                assert(lv[i as int] == lines@[i as int]@);
                assert(pre.skip(1) =~= lv.skip(i as int + 1));
            }
            let line = trim_bytes(lines[i].as_slice());
            if line.len() > 0 && line[0] == 35 {
                // comment line
            } else if line.len() == 0 {
                if acc.touched {
                    let closed = acc;
                    acc = Acc::new();
                    match finalize_block(closed) {
                        Ok(rec) => {
                            let ghost old_records = records@;
                            let ghost rec_v = rec@;
                            records.push(rec);
                            proof {
                                assert(recs_view(records@) =~= recs_view(old_records) + seq![
                                    rec_v,
                                ]);
                            }
                        },
                        Err(e) => {
                            return Err(e);
                        },
                    }
                }
            } else {
                match find_sep(line.as_slice()) {
                    None => {
                        return Err(ParseError::MalformedLine { line });
                    },
                    Some(sep) => {
                        let key = vstd::slice::slice_subrange(line.as_slice(), 0, sep);
                        let raw_value = vstd::slice::slice_subrange(
                            line.as_slice(),
                            sep + 2,
                            line.len(),
                        );
                        let value = strip_quotes(raw_value);
                        proof {
                            assert(raw_value@ =~= line@.skip(sep + 2));
                        }
                        set_key(&mut acc, key, value);
                    },
                }
            }
            i += 1;
        }
        proof {
            assert(lv.skip(lv.len() as int) =~= Seq::<Seq<u8>>::empty());
        }
        if acc.touched {
            match finalize_block(acc) {
                Ok(rec) => {
                    let ghost old_records = records@;
                    let ghost rec_v = rec@;
                    records.push(rec);
                    proof {
                        assert(recs_view(records@) =~= recs_view(old_records) + seq![rec_v]);
                    }
                    Ok(YPBankTxtRecords { records })
                },
                Err(e) => Err(e),
            }
        } else {
            Ok(YPBankTxtRecords { records })
        }
    }

    /// Encodes the records as text blocks appended to `out`.  Block-text
    /// encoding never fails.
    fn write_to(&self, out: &mut Vec<u8>) -> (r: Result<(), EncodeError>)
        ensures
            r is Ok && final(out)@ == old(out)@ + spec_txt_encode(self@),
    {
        let n = self.records.len();
        proof {
            assert(self@.len() == n);
            assert(self@.subrange(0, 0) =~= Seq::<RecordV>::empty());
        }
        let mut i: usize = 0;
        while i < n
            invariant
                n == self.records.len(),
                n == self@.len(),
                i <= n,
                out@ == old(out)@ + spec_txt_encode(self@.subrange(0, i as int)),
            decreases n - i,
        {
            let rec = &self.records[i];
            proof {
                assert(self@[i as int] == self.records@[i as int]@);
            }
            write_record_to(out, rec);
            proof {
                lemma_txt_encode_snoc(self@, i as int);
            }
            i += 1;
        }
        proof {
            assert(self@.subrange(0, self@.len() as int) =~= self@);
        }
        Ok(())
    }
}

/// Appending one more record extends the encoding by one block.
proof fn lemma_txt_encode_snoc(rs: Seq<RecordV>, i: int)
    requires
        0 <= i < rs.len(),
    ensures
        spec_txt_encode(rs.subrange(0, i + 1)) == spec_txt_encode(rs.subrange(0, i))
            + spec_txt_record(rs[i]),
    decreases i,
{
    if i == 0 {
        assert(rs.subrange(0, 1)[0] == rs[0]);
        assert(rs.subrange(0, 1).skip(1) =~= Seq::<RecordV>::empty());
        assert(rs.subrange(0, 0) =~= Seq::<RecordV>::empty());
        assert(spec_txt_encode(Seq::<RecordV>::empty()) =~= Seq::<u8>::empty());
        assert(spec_txt_encode(rs.subrange(0, 1)) =~= spec_txt_record(rs[0]) + Seq::<u8>::empty());
        assert(spec_txt_record(rs[0]) + Seq::<u8>::empty() =~= spec_txt_record(rs[0]));
        assert(Seq::<u8>::empty() + spec_txt_record(rs[0]) =~= spec_txt_record(rs[0]));
    } else {
        lemma_txt_encode_snoc(rs.skip(1), i - 1);
        assert(rs.subrange(0, i + 1)[0] == rs[0]);
        assert(rs.subrange(0, i + 1).skip(1) =~= rs.skip(1).subrange(0, i));
        assert(rs.subrange(0, i)[0] == rs[0]);
        assert(rs.subrange(0, i).skip(1) =~= rs.skip(1).subrange(0, i - 1));
        assert(rs.skip(1)[i - 1] == rs[i]);
        assert(spec_txt_encode(rs.subrange(0, i + 1)) == spec_txt_record(rs[0]) + spec_txt_encode(
            rs.skip(1).subrange(0, i),
        ));
        assert(spec_txt_encode(rs.subrange(0, i)) == spec_txt_record(rs[0]) + spec_txt_encode(
            rs.skip(1).subrange(0, i - 1),
        ));
        assert((spec_txt_record(rs[0]) + (spec_txt_encode(rs.skip(1).subrange(0, i - 1))
            + spec_txt_record(rs[i]))) =~= (spec_txt_record(rs[0]) + spec_txt_encode(
            rs.skip(1).subrange(0, i - 1),
        )) + spec_txt_record(rs[i]));
    }
}

/// Appends one `KEY: value` line with an unsigned decimal value.
fn push_kv_u64(out: &mut Vec<u8>, f: Field, n: u64)
    ensures
        final(out)@ == old(out)@ + spec_kv_line(f, spec_dec_u64(n)),
{
    push_field_key(out, f);
    out.push(58);
    out.push(32);
    push_dec_u64(out, n);
    out.push(10);
    assert(out@ =~= old(out)@ + spec_kv_line(f, spec_dec_u64(n)));
}

/// Appends the comment line of a block.
fn push_comment_line(out: &mut Vec<u8>, record: &TransactionRecord)
    ensures
        final(out)@ == old(out)@ + spec_comment_line(record@),
{
    out.push(35);
    out.push(32);
    out.push(82);
    out.push(101);
    out.push(99);
    out.push(111);
    out.push(114);
    out.push(100);
    out.push(32);
    let tag = desc_tag(record.description.as_slice());
    push_dec_i32(out, tag);
    out.push(32);
    push_tx_type_name(out, record.tx_type);
    out.push(10);
    assert(out@ =~= old(out)@ + spec_comment_line(record@));
}

/// Appends the `TX_TYPE` line of a block.
fn push_kv_tx_type(out: &mut Vec<u8>, t: TxType)
    ensures
        final(out)@ == old(out)@ + spec_kv_line(Field::TxType, tx_type_name(t)),
{
    push_field_key(out, Field::TxType);
    out.push(58);
    out.push(32);
    push_tx_type_name(out, t);
    out.push(10);
    assert(out@ =~= old(out)@ + spec_kv_line(Field::TxType, tx_type_name(t)));
}

/// Appends the `STATUS` line of a block.
fn push_kv_status(out: &mut Vec<u8>, s: Status)
    ensures
        final(out)@ == old(out)@ + spec_kv_line(Field::Status, status_name(s)),
{
    push_field_key(out, Field::Status);
    out.push(58);
    out.push(32);
    push_status_name(out, s);
    out.push(10);
    assert(out@ =~= old(out)@ + spec_kv_line(Field::Status, status_name(s)));
}

/// Appends the `DESCRIPTION` line of a block, value double-quoted.
fn push_kv_description(out: &mut Vec<u8>, desc: &Vec<u8>)
    ensures
        final(out)@ == old(out)@ + spec_kv_line(
            Field::Description,
            seq![34u8] + desc@ + seq![34u8],
        ),
{
    push_field_key(out, Field::Description);
    out.push(58);
    out.push(32);
    out.push(34);
    out.extend_from_slice(desc.as_slice());
    out.push(34);
    out.push(10);
    assert(out@ =~= old(out)@ + spec_kv_line(Field::Description, seq![34u8] + desc@ + seq![34u8]));
}

/// Appends one encoded block: the comment line, the eight `KEY: value`
/// lines in fixed order, and the closing blank line.
#[verifier::rlimit(100)]
pub fn write_record_to(out: &mut Vec<u8>, record: &TransactionRecord)
    ensures
        final(out)@ == old(out)@ + spec_txt_record(record@),
{
    push_comment_line(out, record);
    push_kv_u64(out, Field::TxId, record.tx_id);
    push_kv_tx_type(out, record.tx_type);
    push_kv_u64(out, Field::FromUserId, record.from_user_id);
    push_kv_u64(out, Field::ToUserId, record.to_user_id);
    push_kv_u64(out, Field::Amount, record.amount);
    push_kv_u64(out, Field::Timestamp, record.timestamp);
    push_kv_status(out, record.status);
    push_kv_description(out, &record.description);
    out.push(10);
    assert(out@ =~= old(out)@ + spec_txt_record(record@));
}

/// The record-sequence tag of a description.
fn desc_tag(desc: &[u8]) -> (r: i32)
    ensures
        r == spec_desc_tag(desc@),
{
    let n = desc.len();
    let tok: &[u8] = match find_last_byte(desc, 32) {
        Some(i) => {
            let t = vstd::slice::slice_subrange(desc, i + 1, n);
            proof {
                assert(t@ =~= desc@.skip(i + 1));
            }
            t
        },
        None => desc,
    };
    match parse_i32_bytes(tok) {
        Some(v) => v,
        None => 0,
    }
}


/// A description a block-text round trip preserves: one with no double
/// quote (stripped on decode) and no newline (a line break on encode).
pub open spec fn txt_clean(r: RecordV) -> bool {
    forall|i: int|
        0 <= i < r.description.len() ==> (#[trigger] r.description[i] != 34
            && r.description[i] != 10)
}

/// The ten lines of one encoded block, without their newlines.
pub open spec fn record_lines(r: RecordV) -> Seq<Seq<u8>> {
    seq![
        spec_comment_body(r),
        spec_kv_body(Field::TxId, spec_dec_u64(r.tx_id)),
        spec_kv_body(Field::TxType, tx_type_name(r.tx_type)),
        spec_kv_body(Field::FromUserId, spec_dec_u64(r.from_user_id)),
        spec_kv_body(Field::ToUserId, spec_dec_u64(r.to_user_id)),
        spec_kv_body(Field::Amount, spec_dec_u64(r.amount)),
        spec_kv_body(Field::Timestamp, spec_dec_u64(r.timestamp)),
        spec_kv_body(Field::Status, status_name(r.status)),
        spec_kv_body(Field::Description, seq![34u8] + r.description + seq![34u8]),
        Seq::<u8>::empty(),
    ]
}

/// The bytes of a signed decimal rendering: digits, or a leading minus.
proof fn lemma_dec_i32_bytes(v: i32)
    ensures
        spec_dec_i32(v).len() >= 1,
        forall|i: int| 0 <= i < spec_dec_i32(v).len() ==> 45 <= #[trigger] spec_dec_i32(v)[i] <= 57,
{
    if v >= 0 {
        crate::bytes::lemma_dec_u64_digits(v as u64);
    } else {
        let m = (0 - v as int) as u64;
        crate::bytes::lemma_dec_u64_digits(m);
        assert forall|i: int| 0 <= i < spec_dec_i32(v).len() implies 45 <= #[trigger] spec_dec_i32(
            v,
        )[i] <= 57 by {
            if i > 0 {
                assert(spec_dec_i32(v)[i] == spec_dec_u64(m)[i - 1]);
                assert(crate::bytes::is_dec_digit(spec_dec_u64(m)[i - 1]));
            }
        }
    }
}

/// Where the key ends, the first `": "` separator of a key/value body
/// stands, scanning from any position inside the key.
proof fn lemma_find_sep_scan(k: Seq<u8>, v: Seq<u8>, i: int)
    requires
        0 <= i <= k.len(),
        forall|j: int| 0 <= j < k.len() ==> #[trigger] k[j] != 58,
    ensures
        spec_find_sep(k + kv_sep() + v, i) == Some(k.len() as int),
    decreases k.len() - i,
{
    let l = k + kv_sep() + v;
    assert(l[k.len() as int] == 58);
    assert(l[k.len() as int + 1] == 32);
    if i == k.len() {
    } else {
        assert(l[i] == k[i]);
        lemma_find_sep_scan(k, v, i + 1);
    }
}

/// What decoding one key/value line does: the line is its own trim, is
/// no comment and no blank, and splits into exactly its key and value.
proof fn lemma_kv_body_parse(f: Field, v: Seq<u8>)
    requires
        v.len() >= 1,
        !crate::bytes::is_ws(v.last()),
        forall|i: int| 0 <= i < v.len() ==> #[trigger] v[i] != 10,
    ensures
        spec_trim(spec_kv_body(f, v)) == spec_kv_body(f, v),
        spec_kv_body(f, v).len() > 0,
        spec_kv_body(f, v)[0] != 35,
        spec_split_kv(spec_kv_body(f, v)) == Some((field_key(f), v)),
        forall|i: int| 0 <= i < spec_kv_body(f, v).len() ==> #[trigger] spec_kv_body(f, v)[i] != 10,
    decreases v.len(),
{
    let b = spec_kv_body(f, v);
    let k = field_key(f);
    crate::error::lemma_key_bytes(f);
    assert(b[0] == k[0]);
    assert(!crate::bytes::is_ws(b[0]));
    assert(b.last() == v.last());
    crate::bytes::lemma_trim_id(b);
    assert forall|j: int| 0 <= j < k.len() implies #[trigger] k[j] != 58 by {}
    lemma_find_sep_scan(k, v, 0);
    assert(b.subrange(0, k.len() as int) =~= k);
    assert(b.skip(k.len() as int + 2) =~= v);
    assert forall|i: int| 0 <= i < b.len() implies #[trigger] b[i] != 10 by {
        if i < k.len() {
            assert(b[i] == k[i]);
        } else if i < k.len() + 2 {
            assert(b[i] == kv_sep()[i - k.len()]);
        } else {
            assert(b[i] == v[i - k.len() - 2]);
        }
    }
}

/// What decoding the comment line does: it is its own trim and starts
/// with the comment mark.
proof fn lemma_comment_body_facts(r: RecordV)
    ensures
        spec_trim(spec_comment_body(r)) == spec_comment_body(r),
        spec_comment_body(r).len() > 0,
        spec_comment_body(r)[0] == 35,
        forall|i: int|
            0 <= i < spec_comment_body(r).len() ==> #[trigger] spec_comment_body(r)[i] != 10,
{
    let b = spec_comment_body(r);
    let prefix = seq![35u8, 32u8, 82u8, 101u8, 99u8, 111u8, 114u8, 100u8, 32u8];
    let tag = spec_dec_i32(spec_desc_tag(r.description));
    let name = tx_type_name(r.tx_type);
    lemma_dec_i32_bytes(spec_desc_tag(r.description));
    lemma_name_bytes(r.tx_type, Status::SUCCESS);
    assert(b[0] == 35);
    assert(b.last() == name.last());
    assert(65 <= name.last() <= 90);
    crate::bytes::lemma_trim_id(b);
    assert forall|i: int| 0 <= i < b.len() implies #[trigger] b[i] != 10 by {
        if i < 9 {
            assert(b[i] == prefix[i]);
        } else if i < 9 + tag.len() {
            assert(b[i] == tag[i - 9]);
        } else if i == 9 + tag.len() {
            assert(b[i] == 32);
        } else {
            assert(b[i] == name[i - 9 - tag.len() - 1]);
        }
    }
}

/// Every line of a block is free of newlines, so the block splits into
/// exactly its ten lines before any following bytes.
#[verifier::rlimit(100)]
#[verifier::spinoff_prover]
proof fn lemma_txt_record_split(r: RecordV, tail: Seq<u8>)
    requires
        txt_clean(r),
    ensures
        spec_split_lines(spec_txt_record(r) + tail) == record_lines(r) + spec_split_lines(tail),
{
    let ls = record_lines(r);
    crate::bytes::lemma_dec_u64_digits(r.tx_id);
    crate::bytes::lemma_dec_u64_digits(r.from_user_id);
    crate::bytes::lemma_dec_u64_digits(r.to_user_id);
    crate::bytes::lemma_dec_u64_digits(r.amount);
    crate::bytes::lemma_dec_u64_digits(r.timestamp);
    lemma_name_bytes(r.tx_type, r.status);
    lemma_comment_body_facts(r);
    lemma_kv_body_parse(Field::TxId, spec_dec_u64(r.tx_id));
    lemma_kv_body_parse(Field::TxType, tx_type_name(r.tx_type));
    lemma_kv_body_parse(Field::FromUserId, spec_dec_u64(r.from_user_id));
    lemma_kv_body_parse(Field::ToUserId, spec_dec_u64(r.to_user_id));
    lemma_kv_body_parse(Field::Amount, spec_dec_u64(r.amount));
    lemma_kv_body_parse(Field::Timestamp, spec_dec_u64(r.timestamp));
    lemma_kv_body_parse(Field::Status, status_name(r.status));
    let descv = seq![34u8] + r.description + seq![34u8];
    assert(descv.last() == 34);
    assert(forall|i: int| 0 <= i < descv.len() ==> #[trigger] descv[i] != 10) by {
        assert forall|i: int| 0 <= i < descv.len() implies #[trigger] descv[i] != 10 by {
            if i == 0 {
            } else if i < 1 + r.description.len() {
                assert(descv[i] == r.description[i - 1]);
            } else {
                assert(descv[i] == 34);
            }
        }
    }
    lemma_kv_body_parse(Field::Description, descv);
    let s9 = ls[9] + seq![10u8] + tail;
    crate::bytes::lemma_split_lines_chunk(ls[9], tail);
    let s8 = ls[8] + seq![10u8] + s9;
    crate::bytes::lemma_split_lines_chunk(ls[8], s9);
    let s7 = ls[7] + seq![10u8] + s8;
    crate::bytes::lemma_split_lines_chunk(ls[7], s8);
    let s6 = ls[6] + seq![10u8] + s7;
    crate::bytes::lemma_split_lines_chunk(ls[6], s7);
    let s5 = ls[5] + seq![10u8] + s6;
    crate::bytes::lemma_split_lines_chunk(ls[5], s6);
    let s4 = ls[4] + seq![10u8] + s5;
    crate::bytes::lemma_split_lines_chunk(ls[4], s5);
    let s3 = ls[3] + seq![10u8] + s4;
    crate::bytes::lemma_split_lines_chunk(ls[3], s4);
    let s2 = ls[2] + seq![10u8] + s3;
    crate::bytes::lemma_split_lines_chunk(ls[2], s3);
    let s1 = ls[1] + seq![10u8] + s2;
    crate::bytes::lemma_split_lines_chunk(ls[1], s2);
    let s0 = ls[0] + seq![10u8] + s1;
    crate::bytes::lemma_split_lines_chunk(ls[0], s1);
    assert(spec_txt_record(r) + tail =~= s0);
    assert(spec_split_lines(spec_txt_record(r) + tail) == seq![ls[0]] + (seq![ls[1]] + (seq![
        ls[2],
    ] + (seq![ls[3]] + (seq![ls[4]] + (seq![ls[5]] + (seq![ls[6]] + (seq![ls[7]] + (seq![ls[8]]
        + (seq![ls[9]] + spec_split_lines(tail)))))))))));
    assert(seq![ls[0]] + (seq![ls[1]] + (seq![ls[2]] + (seq![ls[3]] + (seq![ls[4]] + (seq![
        ls[5],
    ] + (seq![ls[6]] + (seq![ls[7]] + (seq![ls[8]] + (seq![ls[9]] + spec_split_lines(
        tail,
    )))))))))) =~= ls + spec_split_lines(tail));
}


/// A digit string holds no double quote.
proof fn lemma_digits_no_quote(v: Seq<u8>)
    requires
        crate::bytes::all_dec_digits(v),
    ensures
        forall|i: int| 0 <= i < v.len() ==> #[trigger] v[i] != 34,
        forall|i: int| 0 <= i < v.len() ==> #[trigger] v[i] != 10,
        v.len() > 0 ==> !crate::bytes::is_ws(v.last()),
{
    assert forall|i: int| 0 <= i < v.len() implies #[trigger] v[i] != 34 && v[i] != 10 by {
        assert(crate::bytes::is_dec_digit(v[i]));
    }
    if v.len() > 0 {
        assert(crate::bytes::is_dec_digit(v.last()));
    }
}

/// A string of upper-case letters holds no double quote.
proof fn lemma_letters_no_quote(v: Seq<u8>)
    requires
        forall|i: int| 0 <= i < v.len() ==> 65 <= #[trigger] v[i] <= 90,
    ensures
        forall|i: int| 0 <= i < v.len() ==> #[trigger] v[i] != 34,
        forall|i: int| 0 <= i < v.len() ==> #[trigger] v[i] != 10,
        v.len() > 0 ==> !crate::bytes::is_ws(v.last()),
{
}

/// Decoding the ten lines of one block, starting with nothing collected,
/// closes exactly that block's record and goes on with the rest.
#[verifier::rlimit(100)]
#[verifier::spinoff_prover]
proof fn lemma_txt_decode_record(r: RecordV, rest: Seq<Seq<u8>>, done: Seq<RecordV>)
    requires
        txt_clean(r),
    ensures
        spec_txt_decode_lines(record_lines(r) + rest, empty_acc(), done) == spec_txt_decode_lines(
            rest,
            empty_acc(),
            done + seq![r],
        ),
{
    let ls = record_lines(r);
    let descv = seq![34u8] + r.description + seq![34u8];
    crate::bytes::lemma_dec_u64_digits(r.tx_id);
    crate::bytes::lemma_dec_u64_digits(r.from_user_id);
    crate::bytes::lemma_dec_u64_digits(r.to_user_id);
    crate::bytes::lemma_dec_u64_digits(r.amount);
    crate::bytes::lemma_dec_u64_digits(r.timestamp);
    lemma_name_bytes(r.tx_type, r.status);
    lemma_digits_no_quote(spec_dec_u64(r.tx_id));
    lemma_digits_no_quote(spec_dec_u64(r.from_user_id));
    lemma_digits_no_quote(spec_dec_u64(r.to_user_id));
    lemma_digits_no_quote(spec_dec_u64(r.amount));
    lemma_digits_no_quote(spec_dec_u64(r.timestamp));
    lemma_letters_no_quote(tx_type_name(r.tx_type));
    lemma_letters_no_quote(status_name(r.status));
    lemma_comment_body_facts(r);
    lemma_kv_body_parse(Field::TxId, spec_dec_u64(r.tx_id));
    lemma_kv_body_parse(Field::TxType, tx_type_name(r.tx_type));
    lemma_kv_body_parse(Field::FromUserId, spec_dec_u64(r.from_user_id));
    lemma_kv_body_parse(Field::ToUserId, spec_dec_u64(r.to_user_id));
    lemma_kv_body_parse(Field::Amount, spec_dec_u64(r.amount));
    lemma_kv_body_parse(Field::Timestamp, spec_dec_u64(r.timestamp));
    lemma_kv_body_parse(Field::Status, status_name(r.status));
    assert(descv.last() == 34);
    assert forall|i: int| 0 <= i < descv.len() implies #[trigger] descv[i] != 10 by {
        if 0 < i < 1 + r.description.len() {
            assert(descv[i] == r.description[i - 1]);
        }
    }
    lemma_kv_body_parse(Field::Description, descv);
    crate::bytes::lemma_strip_quotes_id(spec_dec_u64(r.tx_id));
    crate::bytes::lemma_strip_quotes_id(tx_type_name(r.tx_type));
    crate::bytes::lemma_strip_quotes_id(spec_dec_u64(r.from_user_id));
    crate::bytes::lemma_strip_quotes_id(spec_dec_u64(r.to_user_id));
    crate::bytes::lemma_strip_quotes_id(spec_dec_u64(r.amount));
    crate::bytes::lemma_strip_quotes_id(spec_dec_u64(r.timestamp));
    crate::bytes::lemma_strip_quotes_id(status_name(r.status));
    crate::bytes::lemma_strip_quotes_wrap(r.description);
    crate::error::lemma_keys_distinct(Field::TxType, Field::TxId);
    crate::error::lemma_keys_distinct(Field::FromUserId, Field::TxId);
    crate::error::lemma_keys_distinct(Field::FromUserId, Field::TxType);
    crate::error::lemma_keys_distinct(Field::ToUserId, Field::TxId);
    crate::error::lemma_keys_distinct(Field::ToUserId, Field::TxType);
    crate::error::lemma_keys_distinct(Field::ToUserId, Field::FromUserId);
    crate::error::lemma_keys_distinct(Field::Amount, Field::TxId);
    crate::error::lemma_keys_distinct(Field::Amount, Field::TxType);
    crate::error::lemma_keys_distinct(Field::Amount, Field::FromUserId);
    crate::error::lemma_keys_distinct(Field::Amount, Field::ToUserId);
    crate::error::lemma_keys_distinct(Field::Timestamp, Field::TxId);
    crate::error::lemma_keys_distinct(Field::Timestamp, Field::TxType);
    crate::error::lemma_keys_distinct(Field::Timestamp, Field::FromUserId);
    crate::error::lemma_keys_distinct(Field::Timestamp, Field::ToUserId);
    crate::error::lemma_keys_distinct(Field::Timestamp, Field::Amount);
    crate::error::lemma_keys_distinct(Field::Status, Field::TxId);
    crate::error::lemma_keys_distinct(Field::Status, Field::TxType);
    crate::error::lemma_keys_distinct(Field::Status, Field::FromUserId);
    crate::error::lemma_keys_distinct(Field::Status, Field::ToUserId);
    crate::error::lemma_keys_distinct(Field::Status, Field::Amount);
    crate::error::lemma_keys_distinct(Field::Status, Field::Timestamp);
    crate::error::lemma_keys_distinct(Field::Description, Field::TxId);
    crate::error::lemma_keys_distinct(Field::Description, Field::TxType);
    crate::error::lemma_keys_distinct(Field::Description, Field::FromUserId);
    crate::error::lemma_keys_distinct(Field::Description, Field::ToUserId);
    crate::error::lemma_keys_distinct(Field::Description, Field::Amount);
    crate::error::lemma_keys_distinct(Field::Description, Field::Timestamp);
    crate::error::lemma_keys_distinct(Field::Description, Field::Status);
    let acc0 = empty_acc();
    let acc1 = spec_set_key(acc0, field_key(Field::TxId), spec_dec_u64(r.tx_id));
    let acc2 = spec_set_key(acc1, field_key(Field::TxType), tx_type_name(r.tx_type));
    let acc3 = spec_set_key(acc2, field_key(Field::FromUserId), spec_dec_u64(r.from_user_id));
    let acc4 = spec_set_key(acc3, field_key(Field::ToUserId), spec_dec_u64(r.to_user_id));
    let acc5 = spec_set_key(acc4, field_key(Field::Amount), spec_dec_u64(r.amount));
    let acc6 = spec_set_key(acc5, field_key(Field::Timestamp), spec_dec_u64(r.timestamp));
    let acc7 = spec_set_key(acc6, field_key(Field::Status), status_name(r.status));
    let acc8 = spec_set_key(acc7, field_key(Field::Description), r.description);
    assert(acc8 == AccV {
        tx_id: Some(spec_dec_u64(r.tx_id)),
        tx_type: Some(tx_type_name(r.tx_type)),
        from_user_id: Some(spec_dec_u64(r.from_user_id)),
        to_user_id: Some(spec_dec_u64(r.to_user_id)),
        amount: Some(spec_dec_u64(r.amount)),
        timestamp: Some(spec_dec_u64(r.timestamp)),
        status: Some(status_name(r.status)),
        description: Some(r.description),
        touched: true,
    });
    crate::bytes::lemma_parse_dec_u64(r.tx_id);
    crate::bytes::lemma_parse_dec_u64(r.from_user_id);
    crate::bytes::lemma_parse_dec_u64(r.to_user_id);
    crate::bytes::lemma_parse_dec_u64(r.amount);
    crate::bytes::lemma_parse_dec_u64(r.timestamp);
    crate::lemma_tx_type_name_round_trip(r.tx_type);
    crate::lemma_status_name_round_trip(r.status);
    assert(spec_finalize(acc8) == Ok::<RecordV, ErrV>(r));
    let l0 = ls + rest;
    let l1 = ls.skip(1) + rest;
    let l2 = ls.skip(2) + rest;
    let l3 = ls.skip(3) + rest;
    let l4 = ls.skip(4) + rest;
    let l5 = ls.skip(5) + rest;
    let l6 = ls.skip(6) + rest;
    let l7 = ls.skip(7) + rest;
    let l8 = ls.skip(8) + rest;
    let l9 = ls.skip(9) + rest;
    assert(l0.skip(1) =~= l1);
    assert(l1.skip(1) =~= l2);
    assert(l2.skip(1) =~= l3);
    assert(l3.skip(1) =~= l4);
    assert(l4.skip(1) =~= l5);
    assert(l5.skip(1) =~= l6);
    assert(l6.skip(1) =~= l7);
    assert(l7.skip(1) =~= l8);
    assert(l8.skip(1) =~= l9);
    assert(l9.skip(1) =~= rest);
    assert(l0[0] == ls[0] && l1[0] == ls[1] && l2[0] == ls[2] && l3[0] == ls[3] && l4[0] == ls[4]
        && l5[0] == ls[5] && l6[0] == ls[6] && l7[0] == ls[7] && l8[0] == ls[8] && l9[0] == ls[9]);
    assert(spec_trim(Seq::<u8>::empty()) =~= Seq::<u8>::empty());
    assert(spec_txt_decode_lines(l0, acc0, done) == spec_txt_decode_lines(l1, acc0, done));
    assert(spec_txt_decode_lines(l1, acc0, done) == spec_txt_decode_lines(l2, acc1, done));
    assert(spec_txt_decode_lines(l2, acc1, done) == spec_txt_decode_lines(l3, acc2, done));
    assert(spec_txt_decode_lines(l3, acc2, done) == spec_txt_decode_lines(l4, acc3, done));
    assert(spec_txt_decode_lines(l4, acc3, done) == spec_txt_decode_lines(l5, acc4, done));
    assert(spec_txt_decode_lines(l5, acc4, done) == spec_txt_decode_lines(l6, acc5, done));
    assert(spec_txt_decode_lines(l6, acc5, done) == spec_txt_decode_lines(l7, acc6, done));
    assert(spec_txt_decode_lines(l7, acc6, done) == spec_txt_decode_lines(l8, acc7, done));
    assert(spec_txt_decode_lines(l8, acc7, done) == spec_txt_decode_lines(l9, acc8, done));
    assert(spec_txt_decode_lines(l9, acc8, done) == spec_txt_decode_lines(
        rest,
        empty_acc(),
        done + seq![r],
    ));
}

/// Block-text round trip, generalised over the records already closed.
proof fn lemma_txt_round_trip_aux(rs: Seq<RecordV>, done: Seq<RecordV>)
    requires
        forall|i: int| 0 <= i < rs.len() ==> txt_clean(#[trigger] rs[i]),
    ensures
        spec_txt_decode_lines(spec_split_lines(spec_txt_encode(rs)), empty_acc(), done) == Ok::<
            Seq<RecordV>,
            ErrV,
        >(done + rs),
    decreases rs.len(),
{
    if rs.len() == 0 {
        assert(spec_txt_encode(rs) =~= Seq::<u8>::empty());
        assert(spec_split_lines(Seq::<u8>::empty()) =~= seq![Seq::<u8>::empty()]);
        assert(spec_trim(Seq::<u8>::empty()) =~= Seq::<u8>::empty());
        assert(seq![Seq::<u8>::empty()].skip(1) =~= Seq::<Seq<u8>>::empty());
        assert(spec_txt_decode_lines(Seq::<Seq<u8>>::empty(), empty_acc(), done) == Ok::<
            Seq<RecordV>,
            ErrV,
        >(done));
        assert(seq![Seq::<u8>::empty()][0] =~= Seq::<u8>::empty());
        assert(done + rs =~= done);
    } else {
        let r = rs[0];
        let tail = spec_txt_encode(rs.skip(1));
        assert(spec_txt_encode(rs) == spec_txt_record(r) + tail);
        lemma_txt_record_split(r, tail);
        lemma_txt_decode_record(r, spec_split_lines(tail), done);
        assert(forall|i: int|
            0 <= i < rs.skip(1).len() ==> txt_clean(#[trigger] rs.skip(1)[i]));
        lemma_txt_round_trip_aux(rs.skip(1), done + seq![r]);
        assert((done + seq![r]) + rs.skip(1) =~= done + rs);
    }
}

/// Block-text round trip: decoding the encoding of any record set whose
/// descriptions hold no double quote and no newline yields the same
/// record set.
pub proof fn lemma_txt_round_trip(rs: Seq<RecordV>)
    requires
        forall|i: int| 0 <= i < rs.len() ==> txt_clean(#[trigger] rs[i]),
    ensures
        spec_txt_decode(spec_txt_encode(rs)) == Ok::<Seq<RecordV>, ErrV>(rs),
{
    lemma_txt_round_trip_aux(rs, Seq::empty());
    assert(Seq::<RecordV>::empty() + rs =~= rs);
}

/// Decoding an empty byte stream yields an empty record set, not an error.
pub proof fn lemma_txt_empty_input()
    ensures
        spec_txt_decode(Seq::empty()) == Ok::<Seq<RecordV>, ErrV>(Seq::empty()),
{
    assert(spec_split_lines(Seq::<u8>::empty()) =~= seq![Seq::<u8>::empty()]);
    assert(spec_trim(Seq::<u8>::empty()) =~= Seq::<u8>::empty());
    assert(seq![Seq::<u8>::empty()][0] =~= Seq::<u8>::empty());
    assert(seq![Seq::<u8>::empty()].skip(1) =~= Seq::<Seq<u8>>::empty());
    assert(spec_txt_decode_lines(Seq::<Seq<u8>>::empty(), empty_acc(), Seq::<RecordV>::empty())
        == Ok::<Seq<RecordV>, ErrV>(Seq::<RecordV>::empty()));
}

} // verus!
