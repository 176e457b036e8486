//! The delimited text format.
//!
//! The record set is a comma-separated table: one header row naming the
//! eight fields in fixed order, then one data row per record.  A field
//! that starts with a double quote runs to the next double quote and may
//! contain commas; the closing quote must be followed by a comma or the
//! end of the row.  On encode, integer fields are decimal, enumeration
//! fields are their literal names, and the description is double-quoted
//! (with no escaping for quotes inside it, a documented limitation).
//! On decode, the first non-blank row is the header and is not validated;
//! every other row must supply exactly eight fields by position.

use vstd::prelude::*;

use crate::bytes::{
    find_byte_from, parse_u64_bytes, push_dec_u64, spec_dec_u64, spec_find_byte, spec_parse_u64,
    spec_split_lines, split_lines, lines_view,
};
use crate::error::{field_key, push_field_key, EncodeError, ErrV, Field, ParseError};
use crate::{
    push_status_name, push_tx_type_name, recs_view, spec_status_from_name, spec_tx_type_from_name,
    status_from_name, status_name, tx_type_from_name, tx_type_name, RecordParser, RecordV, Status,
    TransactionRecord, TxType,
};

verus! {

/// The header row without its newline.
pub open spec fn spec_csv_header_body() -> Seq<u8> {
    field_key(Field::TxId) + seq![44u8] + field_key(Field::TxType) + seq![44u8] + field_key(
        Field::FromUserId,
    ) + seq![44u8] + field_key(Field::ToUserId) + seq![44u8] + field_key(Field::Amount) + seq![
        44u8,
    ] + field_key(Field::Timestamp) + seq![44u8] + field_key(Field::Status) + seq![44u8]
        + field_key(Field::Description)
}

/// The header row, newline included.
pub open spec fn spec_csv_header() -> Seq<u8> {
    spec_csv_header_body() + seq![10u8]
}

/// One data row without its newline; the description is double-quoted.
pub open spec fn spec_csv_row_body(r: RecordV) -> Seq<u8> {
    spec_dec_u64(r.tx_id) + seq![44u8] + tx_type_name(r.tx_type) + seq![44u8] + spec_dec_u64(
        r.from_user_id,
    ) + seq![44u8] + spec_dec_u64(r.to_user_id) + seq![44u8] + spec_dec_u64(r.amount) + seq![
        44u8,
    ] + spec_dec_u64(r.timestamp) + seq![44u8] + status_name(r.status) + seq![44u8] + seq![34u8]
        + r.description + seq![34u8]
}

/// One data row, newline included.
pub open spec fn spec_csv_row(r: RecordV) -> Seq<u8> {
    spec_csv_row_body(r) + seq![10u8]
}

/// The data rows of a record sequence.
pub open spec fn spec_csv_rows_of(rs: Seq<RecordV>) -> Seq<u8>
    decreases rs.len(),
{
    if rs.len() == 0 {
        Seq::empty()
    } else {
        spec_csv_row(rs[0]) + spec_csv_rows_of(rs.skip(1))
    }
}

/// The delimited-text encoding: the header row, then one row per record.
pub open spec fn spec_csv_encode(rs: Seq<RecordV>) -> Seq<u8> {
    spec_csv_header() + spec_csv_rows_of(rs)
}

/// The fields of one row, split at top-level commas with quoted fields
/// honoured.  A quoted field must be closed and followed by a comma or
/// the end of the row.
pub open spec fn spec_fields(s: Seq<u8>) -> Result<Seq<Seq<u8>>, ErrV>
    decreases s.len(),
{
    proof {
        crate::bytes::lemma_find_byte_range(s.skip(1), 34);
        crate::bytes::lemma_find_byte_range(s, 44);
    }
    if s.len() > 0 && s[0] == 34 {
        match spec_find_byte(s.skip(1), 34) {
            None => Err(ErrV::BadQuoting { line: s }),
            Some(j) => {
                let content = s.skip(1).subrange(0, j);
                let after = s.skip(1).skip(j + 1);
                if after.len() == 0 {
                    Ok(seq![content])
                } else if after[0] == 44 {
                    match spec_fields(after.skip(1)) {
                        Err(e) => Err(e),
                        Ok(fs) => Ok(seq![content] + fs),
                    }
                } else {
                    Err(ErrV::BadQuoting { line: s })
                }
            },
        }
    } else {
        match spec_find_byte(s, 44) {
            None => Ok(seq![s]),
            Some(i) => match spec_fields(s.skip(i + 1)) {
                Err(e) => Err(e),
                Ok(fs) => Ok(seq![s.subrange(0, i)] + fs),
            },
        }
    }
}

/// What one data row decodes to: exactly eight fields, parsed by
/// position, the description taken verbatim from its (unquoted) field.
pub open spec fn spec_parse_row(row: Seq<u8>) -> Result<RecordV, ErrV> {
    match spec_fields(row) {
        Err(e) => Err(e),
        Ok(fs) => if fs.len() != 8 {
            Err(ErrV::BadRow { found: fs.len() as int })
        } else {
            match spec_parse_u64(fs[0]) {
                None => Err(ErrV::BadFieldValue { field: Field::TxId, value: fs[0] }),
                Some(tx_id) => match spec_tx_type_from_name(fs[1]) {
                    None => Err(ErrV::BadFieldValue { field: Field::TxType, value: fs[1] }),
                    Some(tx_type) => match spec_parse_u64(fs[2]) {
                        None => Err(ErrV::BadFieldValue { field: Field::FromUserId, value: fs[2] }),
                        Some(from_user_id) => match spec_parse_u64(fs[3]) {
                            None => Err(
                                ErrV::BadFieldValue { field: Field::ToUserId, value: fs[3] },
                            ),
                            Some(to_user_id) => match spec_parse_u64(fs[4]) {
                                None => Err(
                                    ErrV::BadFieldValue { field: Field::Amount, value: fs[4] },
                                ),
                                Some(amount) => match spec_parse_u64(fs[5]) {
                                    None => Err(
                                        ErrV::BadFieldValue {
                                            field: Field::Timestamp,
                                            value: fs[5],
                                        },
                                    ),
                                    Some(timestamp) => match spec_status_from_name(fs[6]) {
                                        None => Err(
                                            ErrV::BadFieldValue {
                                                field: Field::Status,
                                                value: fs[6],
                                            },
                                        ),
                                        Some(status) => Ok(
                                            RecordV {
                                                tx_id,
                                                tx_type,
                                                from_user_id,
                                                to_user_id,
                                                amount,
                                                timestamp,
                                                status,
                                                description: fs[7],
                                            },
                                        ),
                                    },
                                },
                            },
                        },
                    },
                },
            }
        },
    }
}

/// A line without a trailing carriage return.
pub open spec fn strip_cr(l: Seq<u8>) -> Seq<u8> {
    if l.len() > 0 && l.last() == 13 {
        l.drop_last()
    } else {
        l
    }
}

/// What a sequence of lines decodes to.  Blank lines are skipped, the
/// first remaining line is the header, every later one is a data row.
pub open spec fn spec_csv_decode_lines(
    lines: Seq<Seq<u8>>,
    seen_header: bool,
    done: Seq<RecordV>,
) -> Result<Seq<RecordV>, ErrV>
    decreases lines.len(),
{
    if lines.len() == 0 {
        Ok(done)
    } else {
        let l = strip_cr(lines[0]);
        if l.len() == 0 {
            spec_csv_decode_lines(lines.skip(1), seen_header, done)
        } else if !seen_header {
            spec_csv_decode_lines(lines.skip(1), true, done)
        } else {
            match spec_parse_row(l) {
                Err(e) => Err(e),
                Ok(r) => spec_csv_decode_lines(lines.skip(1), true, done + seq![r]),
            }
        }
    }
}

/// What a byte stream decodes to under the delimited-text decoder.
pub open spec fn spec_csv_decode(bytes: Seq<u8>) -> Result<Seq<RecordV>, ErrV> {
    spec_csv_decode_lines(spec_split_lines(bytes), false, Seq::empty())
}

/// Scans the single field that starts at `pos`, returning its content and
/// the position after its separator, or the content alone for the last
/// field of the row.
fn scan_field(row: &[u8], pos: usize) -> (r: Result<(Vec<u8>, Option<usize>), ParseError>)
    requires
        pos <= row.len(),
    ensures
        match r {
            Ok((content, next)) => match next {
                Some(np) => pos < np <= row.len() && spec_fields(row@.skip(pos as int)) == (
                match spec_fields(row@.skip(np as int)) {
                    Ok(fs) => Ok::<Seq<Seq<u8>>, ErrV>(seq![content@] + fs),
                    Err(e) => Err::<Seq<Seq<u8>>, ErrV>(e),
                }),
                None => spec_fields(row@.skip(pos as int)) == Ok::<Seq<Seq<u8>>, ErrV>(
                    seq![content@],
                ),
            },
            Err(e) => spec_fields(row@.skip(pos as int)) == Err::<Seq<Seq<u8>>, ErrV>(e@),
        },
{
    let ghost t = row@.skip(pos as int);
    let n = row.len();
    if pos < n && row[pos] == 34 {
        proof {
            assert(t[0] == row@[pos as int]);
            assert(t.skip(1) =~= row@.skip(pos as int + 1));
        }
        match find_byte_from(row, pos + 1, 34) {
            None => {
                let line = vstd::slice::slice_to_vec(
                    vstd::slice::slice_subrange(row, pos, n),
                );
                proof {
                    assert(line@ =~= t);
                }
                Err(ParseError::BadQuoting { line })
            },
            Some(q) => {
                let ghost j = q - (pos + 1);
                let content = vstd::slice::slice_to_vec(
                    vstd::slice::slice_subrange(row, pos + 1, q),
                );
                proof {
                    assert(content@ =~= t.skip(1).subrange(0, j as int));
                    assert(t.skip(1).skip(j + 1) =~= row@.skip(q as int + 1));
                }
                if q + 1 == n {
                    proof {
                        assert(row@.skip(q as int + 1).len() == 0);
                    }
                    Ok((content, None))
                } else if row[q + 1] == 44 {
                    proof {
                        assert(row@.skip(q as int + 1)[0] == row@[q as int + 1]);
                        assert(row@.skip(q as int + 1).skip(1) =~= row@.skip(q as int + 2));
                    }
                    Ok((content, Some(q + 2)))
                } else {
                    proof {
                        assert(row@.skip(q as int + 1)[0] == row@[q as int + 1]);
                    }
                    let line = vstd::slice::slice_to_vec(
                        vstd::slice::slice_subrange(row, pos, n),
                    );
                    proof {
                        assert(line@ =~= t);
                    }
                    Err(ParseError::BadQuoting { line })
                }
            },
        }
    } else {
        proof {
            if pos < n {
                assert(t[0] == row@[pos as int]);
            }
        }
        match find_byte_from(row, pos, 44) {
            None => {
                let content = vstd::slice::slice_to_vec(
                    vstd::slice::slice_subrange(row, pos, n),
                );
                proof {
                    assert(content@ =~= t);
                }
                Ok((content, None))
            },
            Some(c) => {
                let content = vstd::slice::slice_to_vec(
                    vstd::slice::slice_subrange(row, pos, c),
                );
                proof {
                    assert(content@ =~= t.subrange(0, c - pos));
                    assert(t.skip(c - pos + 1) =~= row@.skip(c as int + 1));
                }
                Ok((content, Some(c + 1)))
            },
        }
    }
}

/// Splits one row into its fields.
fn row_fields(row: &[u8]) -> (r: Result<Vec<Vec<u8>>, ParseError>)
    ensures
        match r {
            Ok(fs) => spec_fields(row@) == Ok::<Seq<Seq<u8>>, ErrV>(lines_view(fs@)),
            Err(e) => spec_fields(row@) == Err::<Seq<Seq<u8>>, ErrV>(e@),
        },
{
    let mut out: Vec<Vec<u8>> = Vec::new();
    let mut pos: usize = 0;
    proof {
        assert(row@.skip(0int) =~= row@);
        assert(lines_view(Seq::<Vec<u8>>::empty()) =~= Seq::<Seq<u8>>::empty());
        match spec_fields(row@) {
            Ok(fs) => {
                assert(Seq::<Seq<u8>>::empty() + fs =~= fs);
            },
            Err(_) => {},
        }
    }
    loop
        invariant
            pos <= row.len(),
            spec_fields(row@) == (match spec_fields(row@.skip(pos as int)) {
                Ok(fs) => Ok::<Seq<Seq<u8>>, ErrV>(lines_view(out@) + fs),
                Err(e) => Err::<Seq<Seq<u8>>, ErrV>(e),
            }),
        decreases row.len() - pos,
    {
        match scan_field(row, pos) {
            Ok((content, next)) => {
                let ghost old_out = out@;
                let ghost content_v = content@;
                out.push(content);
                proof {
                    assert(lines_view(out@) =~= lines_view(old_out) + seq![content_v]);
                }
                match next {
                    Some(np) => {
                        proof {
                            match spec_fields(row@.skip(np as int)) {
                                Ok(fs) => {
                                    assert(lines_view(old_out) + (seq![content_v] + fs)
                                        =~= lines_view(out@) + fs);
                                },
                                Err(_) => {},
                            }
                        }
                        pos = np;
                    },
                    None => {
                        proof {
                            assert(lines_view(old_out) + seq![content_v] =~= lines_view(out@));
                        }
                        return Ok(out);
                    },
                }
            },
            Err(e) => {
                return Err(e);
            },
        }
    }
}

/// Parses one data row into a record.
fn parse_row(row: &[u8]) -> (r: Result<TransactionRecord, ParseError>)
    ensures
        match r {
            Ok(rec) => spec_parse_row(row@) == Ok::<RecordV, ErrV>(rec@),
            Err(e) => spec_parse_row(row@) == Err::<RecordV, ErrV>(e@),
        },
{
    let mut fields = match row_fields(row) {
        Ok(fs) => fs,
        Err(e) => {
            return Err(e);
        },
    };
    if fields.len() != 8 {
        return Err(ParseError::BadRow { found: fields.len() });
    }
    proof {
        assert forall|k: int| 0 <= k < 8 implies lines_view(fields@)[k] == fields@[k]@ by {}
    }
    let description = fields.pop().unwrap();
    let status_field = fields.pop().unwrap();
    let timestamp_field = fields.pop().unwrap();
    let amount_field = fields.pop().unwrap();
    let to_field = fields.pop().unwrap();
    let from_field = fields.pop().unwrap();
    let type_field = fields.pop().unwrap();
    let id_field = fields.pop().unwrap();
    let tx_id = match parse_u64_bytes(id_field.as_slice()) {
        Some(n) => n,
        None => {
            return Err(ParseError::BadFieldValue { field: Field::TxId, value: id_field });
        },
    };
    let tx_type = match tx_type_from_name(type_field.as_slice()) {
        Some(t) => t,
        None => {
            return Err(ParseError::BadFieldValue { field: Field::TxType, value: type_field });
        },
    };
    let from_user_id = match parse_u64_bytes(from_field.as_slice()) {
        Some(n) => n,
        None => {
            return Err(ParseError::BadFieldValue { field: Field::FromUserId, value: from_field });
        },
    };
    let to_user_id = match parse_u64_bytes(to_field.as_slice()) {
        Some(n) => n,
        None => {
            return Err(ParseError::BadFieldValue { field: Field::ToUserId, value: to_field });
        },
    };
    let amount = match parse_u64_bytes(amount_field.as_slice()) {
        Some(n) => n,
        None => {
            return Err(ParseError::BadFieldValue { field: Field::Amount, value: amount_field });
        },
    };
    let timestamp = match parse_u64_bytes(timestamp_field.as_slice()) {
        Some(n) => n,
        None => {
            return Err(
                ParseError::BadFieldValue { field: Field::Timestamp, value: timestamp_field },
            );
        },
    };
    let status = match status_from_name(status_field.as_slice()) {
        Some(t) => t,
        None => {
            return Err(ParseError::BadFieldValue { field: Field::Status, value: status_field });
        },
    };
    Ok(
        TransactionRecord {
            tx_id,
            tx_type,
            from_user_id,
            to_user_id,
            amount,
            timestamp,
            status,
            description,
        },
    )
}

/// A record set read from and written to the delimited text format.
#[derive(Debug)]
pub struct YPBankCsvRecords {
    /// The decoded transaction records, in stream order.
    pub records: Vec<TransactionRecord>,
}

impl View for YPBankCsvRecords {
    type V = Seq<RecordV>;

    open spec fn view(&self) -> Seq<RecordV> {
        recs_view(self.records@)
    }
}

impl YPBankCsvRecords {
    pub fn new(records: Vec<TransactionRecord>) -> (r: Self)
        ensures
            r.records == records,
    {
        YPBankCsvRecords { records }
    }
}

impl RecordParser for YPBankCsvRecords {
    /// Decodes a delimited-text table.
    ///
    /// Succeeds exactly when [`spec_csv_decode`] does, with the same
    /// records; fails with exactly the error [`spec_csv_decode`] names.
    fn from_read(data: &[u8]) -> (r: Result<Self, ParseError>)
        ensures
            match r {
                Ok(v) => spec_csv_decode(data@) == Ok::<Seq<RecordV>, ErrV>(v@),
                Err(e) => spec_csv_decode(data@) == Err::<Seq<RecordV>, ErrV>(e@),
            },
    {
        let lines = split_lines(data);
        let ghost lv = spec_split_lines(data@);
        let mut records: Vec<TransactionRecord> = Vec::new();
        let mut seen_header = false;
        let mut i: usize = 0;
        proof {
            assert(lines_view(lines@) == lv);
            assert(lv.skip(0int) =~= lv);
            assert(records@ =~= Seq::<TransactionRecord>::empty());
            assert(recs_view(records@) =~= Seq::<RecordV>::empty());
        }
        while i < lines.len()
            invariant
                i <= lines.len(),
                lines_view(lines@) == lv,
                lv.len() == lines.len(),
                spec_csv_decode(data@) == spec_csv_decode_lines(
                    lv.skip(i as int),
                    seen_header,
                    recs_view(records@),
                ),
            decreases lines.len() - i,
        {
            let ghost pre = lv.skip(i as int);
            proof {
                assert(pre[0] == lv[i as int]);
                assert(lv[i as int] == lines@[i as int]@);
                assert(pre.skip(1) =~= lv.skip(i as int + 1));
            }
            let raw = lines[i].as_slice();
            let row: &[u8] = if raw.len() > 0 && raw[raw.len() - 1] == 13 {
                vstd::slice::slice_subrange(raw, 0, raw.len() - 1)
            } else {
                raw
            };
            proof {
                assert(row@ =~= strip_cr(pre[0]));
            }
            if row.len() == 0 {
                // blank line
            } else if !seen_header {
                seen_header = true;
            } else {
                match parse_row(row) {
                    Ok(rec) => {
                        let ghost old_records = records@;
                        let ghost rec_v = rec@;
                        records.push(rec);
                        proof {
                            assert(recs_view(records@) =~= recs_view(old_records) + seq![rec_v]);
                        }
                    },
                    Err(e) => {
                        return Err(e);
                    },
                }
            }
            i += 1;
        }
        proof {
            assert(lv.skip(lv.len() as int) =~= Seq::<Seq<u8>>::empty());
        }
        Ok(YPBankCsvRecords { records })
    }

    /// Encodes the records as the header row followed by one data row per
    /// record, appended to `out`.  Delimited-text encoding never fails.
    fn write_to(&self, out: &mut Vec<u8>) -> (r: Result<(), EncodeError>)
        ensures
            r is Ok && final(out)@ == old(out)@ + spec_csv_encode(self@),
    {
        write_header(out);
        let ghost after_header = out@;
        let n = self.records.len();
        proof {
            assert(self@.len() == n);
            assert(self@.subrange(0, 0) =~= Seq::<RecordV>::empty());
            assert(after_header + Seq::<u8>::empty() =~= after_header);
        }
        let mut i: usize = 0;
        while i < n
            invariant
                n == self.records.len(),
                n == self@.len(),
                i <= n,
                after_header == old(out)@ + spec_csv_header(),
                out@ == after_header + spec_csv_rows_of(self@.subrange(0, i as int)),
            decreases n - i,
        {
            let rec = &self.records[i];
            proof {
                assert(self@[i as int] == self.records@[i as int]@);
            }
            write_row(out, rec);
            proof {
                lemma_csv_rows_snoc(self@, i as int);
                assert((after_header + spec_csv_rows_of(self@.subrange(0, i as int)))
                    + spec_csv_row(self@[i as int]) =~= after_header + spec_csv_rows_of(
                    self@.subrange(0, i as int + 1),
                ));
            }
            i += 1;
        }
        proof {
            assert(self@.subrange(0, self@.len() as int) =~= self@);
            assert(old(out)@ + spec_csv_header() + spec_csv_rows_of(self@) =~= old(out)@
                + spec_csv_encode(self@));
        }
        Ok(())
    }
}

/// Appending one more record extends the rows by one row.
proof fn lemma_csv_rows_snoc(rs: Seq<RecordV>, i: int)
    requires
        0 <= i < rs.len(),
    ensures
        spec_csv_rows_of(rs.subrange(0, i + 1)) == spec_csv_rows_of(rs.subrange(0, i))
            + spec_csv_row(rs[i]),
    decreases i,
{
    if i == 0 {
        assert(rs.subrange(0, 1)[0] == rs[0]);
        assert(rs.subrange(0, 1).skip(1) =~= Seq::<RecordV>::empty());
        assert(rs.subrange(0, 0) =~= Seq::<RecordV>::empty());
        assert(spec_csv_rows_of(Seq::<RecordV>::empty()) =~= Seq::<u8>::empty());
        assert(spec_csv_rows_of(rs.subrange(0, 1)) =~= spec_csv_row(rs[0]) + Seq::<u8>::empty());
        assert(spec_csv_row(rs[0]) + Seq::<u8>::empty() =~= spec_csv_row(rs[0]));
        assert(Seq::<u8>::empty() + spec_csv_row(rs[0]) =~= spec_csv_row(rs[0]));
    } else {
        lemma_csv_rows_snoc(rs.skip(1), i - 1);
        assert(rs.subrange(0, i + 1)[0] == rs[0]);
        assert(rs.subrange(0, i + 1).skip(1) =~= rs.skip(1).subrange(0, i));
        assert(rs.subrange(0, i)[0] == rs[0]);
        assert(rs.subrange(0, i).skip(1) =~= rs.skip(1).subrange(0, i - 1));
        assert(rs.skip(1)[i - 1] == rs[i]);
        assert(spec_csv_rows_of(rs.subrange(0, i + 1)) == spec_csv_row(rs[0]) + spec_csv_rows_of(
            rs.skip(1).subrange(0, i),
        ));
        assert(spec_csv_rows_of(rs.subrange(0, i)) == spec_csv_row(rs[0]) + spec_csv_rows_of(
            rs.skip(1).subrange(0, i - 1),
        ));
        assert((spec_csv_row(rs[0]) + (spec_csv_rows_of(rs.skip(1).subrange(0, i - 1))
            + spec_csv_row(rs[i]))) =~= (spec_csv_row(rs[0]) + spec_csv_rows_of(
            rs.skip(1).subrange(0, i - 1),
        )) + spec_csv_row(rs[i]));
    }
}

/// Appends the header row.
fn write_header(out: &mut Vec<u8>)
    ensures
        final(out)@ == old(out)@ + spec_csv_header(),
{
    push_field_key(out, Field::TxId);
    out.push(44);
    push_field_key(out, Field::TxType);
    out.push(44);
    push_field_key(out, Field::FromUserId);
    out.push(44);
    push_field_key(out, Field::ToUserId);
    out.push(44);
    push_field_key(out, Field::Amount);
    out.push(44);
    push_field_key(out, Field::Timestamp);
    out.push(44);
    push_field_key(out, Field::Status);
    out.push(44);
    push_field_key(out, Field::Description);
    out.push(10);
    assert(out@ =~= old(out)@ + spec_csv_header());
}

/// Appends one data row.
#[verifier::rlimit(100)]
fn write_row(out: &mut Vec<u8>, record: &TransactionRecord)
    ensures
        final(out)@ == old(out)@ + spec_csv_row(record@),
{
    push_dec_u64(out, record.tx_id);
    out.push(44);
    push_tx_type_name(out, record.tx_type);
    out.push(44);
    push_dec_u64(out, record.from_user_id);
    out.push(44);
    push_dec_u64(out, record.to_user_id);
    out.push(44);
    push_dec_u64(out, record.amount);
    out.push(44);
    push_dec_u64(out, record.timestamp);
    out.push(44);
    push_status_name(out, record.status);
    out.push(44);
    out.push(34);
    out.extend_from_slice(record.description.as_slice());
    out.push(34);
    out.push(10);
    assert(out@ =~= old(out)@ + spec_csv_row(record@));
}


/// A description a delimited-text round trip preserves: one with no
/// double quote, no comma-breaking quote context, and no line break.
/// Quotes would be taken for field quoting, and a newline breaks the row.
pub open spec fn csv_clean(r: RecordV) -> bool {
    forall|i: int|
        0 <= i < r.description.len() ==> (#[trigger] r.description[i] != 34
            && r.description[i] != 10)
}

/// The field values of one data row, in order.
pub open spec fn row_fields_of(r: RecordV) -> Seq<Seq<u8>> {
    seq![
        spec_dec_u64(r.tx_id),
        tx_type_name(r.tx_type),
        spec_dec_u64(r.from_user_id),
        spec_dec_u64(r.to_user_id),
        spec_dec_u64(r.amount),
        spec_dec_u64(r.timestamp),
        status_name(r.status),
        r.description,
    ]
}

/// Where a byte first occurs in a string built around its first
/// occurrence.
proof fn lemma_find_byte_concat(a: Seq<u8>, b: u8, rest: Seq<u8>)
    requires
        forall|j: int| 0 <= j < a.len() ==> #[trigger] a[j] != b,
    ensures
        spec_find_byte(a + seq![b] + rest, b) == Some(a.len() as int),
    decreases a.len(),
{
    let s = a + seq![b] + rest;
    if a.len() == 0 {
        assert(s[0] == b);
    } else {
        assert(s[0] == a[0]);
        assert(forall|j: int| 0 <= j < a.skip(1).len() ==> #[trigger] a.skip(1)[j] == a[j + 1]);
        lemma_find_byte_concat(a.skip(1), b, rest);
        assert(s.skip(1) =~= a.skip(1) + seq![b] + rest);
    }
}

/// Scanning one unquoted field: the text to the first comma is the
/// field, and the scan goes on after the comma.
proof fn lemma_csv_field_step(v: Seq<u8>, rest: Seq<u8>)
    requires
        v.len() >= 1,
        v[0] != 34,
        forall|j: int| 0 <= j < v.len() ==> #[trigger] v[j] != 44,
    ensures
        spec_fields(v + seq![44u8] + rest) == (match spec_fields(rest) {
            Ok(fs) => Ok::<Seq<Seq<u8>>, ErrV>(seq![v] + fs),
            Err(e) => Err::<Seq<Seq<u8>>, ErrV>(e),
        }),
{
    let s = v + seq![44u8] + rest;
    assert(s[0] == v[0]);
    lemma_find_byte_concat(v, 44, rest);
    assert(s.subrange(0, v.len() as int) =~= v);
    assert(s.skip(v.len() as int + 1) =~= rest);
}

/// Scanning the final, quoted field: the text inside the quotes is the
/// field, and the row ends with it.
proof fn lemma_csv_last_field(desc: Seq<u8>)
    requires
        forall|j: int| 0 <= j < desc.len() ==> #[trigger] desc[j] != 34,
    ensures
        spec_fields(seq![34u8] + desc + seq![34u8]) == Ok::<Seq<Seq<u8>>, ErrV>(seq![desc]),
{
    let s = seq![34u8] + desc + seq![34u8];
    assert(s[0] == 34);
    assert(s.skip(1) =~= desc + seq![34u8] + Seq::<u8>::empty());
    lemma_find_byte_concat(desc, 34, Seq::empty());
    assert(s.skip(1).subrange(0, desc.len() as int) =~= desc);
    assert(s.skip(1).skip(desc.len() as int + 1) =~= Seq::<u8>::empty());
}

/// The fields of an encoded data row are exactly the record's fields.
#[verifier::rlimit(100)]
#[verifier::spinoff_prover]
proof fn lemma_csv_row_fields(r: RecordV)
    requires
        csv_clean(r),
    ensures
        spec_fields(spec_csv_row_body(r)) == Ok::<Seq<Seq<u8>>, ErrV>(row_fields_of(r)),
{
    let fs = row_fields_of(r);
    crate::bytes::lemma_dec_u64_digits(r.tx_id);
    crate::bytes::lemma_dec_u64_digits(r.from_user_id);
    crate::bytes::lemma_dec_u64_digits(r.to_user_id);
    crate::bytes::lemma_dec_u64_digits(r.amount);
    crate::bytes::lemma_dec_u64_digits(r.timestamp);
    crate::lemma_name_bytes(r.tx_type, r.status);
    assert forall|f: Seq<u8>, j: int|
        crate::bytes::all_dec_digits(f) && 0 <= j < f.len() implies #[trigger] f[j] != 44 && f[j]
        != 34 by {
        assert(crate::bytes::is_dec_digit(f[j]));
    }
    let t7 = seq![34u8] + r.description + seq![34u8];
    lemma_csv_last_field(r.description);
    let t6 = status_name(r.status) + seq![44u8] + t7;
    lemma_csv_field_step(status_name(r.status), t7);
    let t5 = spec_dec_u64(r.timestamp) + seq![44u8] + t6;
    lemma_csv_field_step(spec_dec_u64(r.timestamp), t6);
    let t4 = spec_dec_u64(r.amount) + seq![44u8] + t5;
    lemma_csv_field_step(spec_dec_u64(r.amount), t5);
    let t3 = spec_dec_u64(r.to_user_id) + seq![44u8] + t4;
    lemma_csv_field_step(spec_dec_u64(r.to_user_id), t4);
    let t2 = spec_dec_u64(r.from_user_id) + seq![44u8] + t3;
    lemma_csv_field_step(spec_dec_u64(r.from_user_id), t3);
    let t1 = tx_type_name(r.tx_type) + seq![44u8] + t2;
    lemma_csv_field_step(tx_type_name(r.tx_type), t2);
    let t0 = spec_dec_u64(r.tx_id) + seq![44u8] + t1;
    lemma_csv_field_step(spec_dec_u64(r.tx_id), t1);
    assert(spec_csv_row_body(r) =~= t0);
    assert(spec_fields(t0) == Ok::<Seq<Seq<u8>>, ErrV>(seq![spec_dec_u64(r.tx_id)] + (seq![
        tx_type_name(r.tx_type),
    ] + (seq![spec_dec_u64(r.from_user_id)] + (seq![spec_dec_u64(r.to_user_id)] + (seq![
        spec_dec_u64(r.amount),
    ] + (seq![spec_dec_u64(r.timestamp)] + (seq![status_name(r.status)] + seq![
        r.description,
    ]))))))));
    assert(seq![spec_dec_u64(r.tx_id)] + (seq![tx_type_name(r.tx_type)] + (seq![
        spec_dec_u64(r.from_user_id),
    ] + (seq![spec_dec_u64(r.to_user_id)] + (seq![spec_dec_u64(r.amount)] + (seq![
        spec_dec_u64(r.timestamp),
    ] + (seq![status_name(r.status)] + seq![r.description])))))) =~= fs);
}

/// An encoded data row decodes to exactly its record.
proof fn lemma_csv_parse_row(r: RecordV)
    requires
        csv_clean(r),
    ensures
        spec_parse_row(spec_csv_row_body(r)) == Ok::<RecordV, ErrV>(r),
{
    lemma_csv_row_fields(r);
    crate::bytes::lemma_parse_dec_u64(r.tx_id);
    crate::bytes::lemma_parse_dec_u64(r.from_user_id);
    crate::bytes::lemma_parse_dec_u64(r.to_user_id);
    crate::bytes::lemma_parse_dec_u64(r.amount);
    crate::bytes::lemma_parse_dec_u64(r.timestamp);
    crate::lemma_tx_type_name_round_trip(r.tx_type);
    crate::lemma_status_name_round_trip(r.status);
}

/// No line of an encoded row holds a newline, so it splits off whole.
proof fn lemma_csv_row_split(r: RecordV, tail: Seq<u8>)
    requires
        csv_clean(r),
    ensures
        spec_split_lines(spec_csv_row(r) + tail) == seq![spec_csv_row_body(r)] + spec_split_lines(
            tail,
        ),
        spec_csv_row_body(r).len() > 0,
        spec_csv_row_body(r).last() == 34,
{
    let b = spec_csv_row_body(r);
    crate::bytes::lemma_dec_u64_digits(r.tx_id);
    crate::bytes::lemma_dec_u64_digits(r.from_user_id);
    crate::bytes::lemma_dec_u64_digits(r.to_user_id);
    crate::bytes::lemma_dec_u64_digits(r.amount);
    crate::bytes::lemma_dec_u64_digits(r.timestamp);
    crate::lemma_name_bytes(r.tx_type, r.status);
    let p0 = spec_dec_u64(r.tx_id);
    let p1 = tx_type_name(r.tx_type);
    let p2 = spec_dec_u64(r.from_user_id);
    let p3 = spec_dec_u64(r.to_user_id);
    let p4 = spec_dec_u64(r.amount);
    let p5 = spec_dec_u64(r.timestamp);
    let p6 = status_name(r.status);
    assert forall|i: int| 0 <= i < b.len() implies #[trigger] b[i] != 10 by {
        let c = seq![44u8];
        let q = seq![34u8];
        let w0 = p0 + c;
        let w1 = w0 + p1 + c;
        let w2 = w1 + p2 + c;
        let w3 = w2 + p3 + c;
        let w4 = w3 + p4 + c;
        let w5 = w4 + p5 + c;
        let w6 = w5 + p6 + c;
        let w7 = w6 + q;
        if i < w0.len() {
            if i < p0.len() {
                assert(b[i] == p0[i]);
                assert(crate::bytes::is_dec_digit(p0[i]));
            } else {
                assert(b[i] == 44);
            }
        } else if i < w1.len() {
            if i < w0.len() + p1.len() {
                assert(b[i] == p1[i - w0.len()]);
            } else {
                assert(b[i] == 44);
            }
        } else if i < w2.len() {
            if i < w1.len() + p2.len() {
                assert(b[i] == p2[i - w1.len()]);
                assert(crate::bytes::is_dec_digit(p2[i - w1.len()]));
            } else {
                assert(b[i] == 44);
            }
        } else if i < w3.len() {
            if i < w2.len() + p3.len() {
                assert(b[i] == p3[i - w2.len()]);
                assert(crate::bytes::is_dec_digit(p3[i - w2.len()]));
            } else {
                assert(b[i] == 44);
            }
        } else if i < w4.len() {
            if i < w3.len() + p4.len() {
                assert(b[i] == p4[i - w3.len()]);
                assert(crate::bytes::is_dec_digit(p4[i - w3.len()]));
            } else {
                assert(b[i] == 44);
            }
        } else if i < w5.len() {
            if i < w4.len() + p5.len() {
                assert(b[i] == p5[i - w4.len()]);
                assert(crate::bytes::is_dec_digit(p5[i - w4.len()]));
            } else {
                assert(b[i] == 44);
            }
        } else if i < w6.len() {
            if i < w5.len() + p6.len() {
                assert(b[i] == p6[i - w5.len()]);
            } else {
                assert(b[i] == 44);
            }
        } else if i < w7.len() {
            assert(b[i] == 34);
        } else if i < w7.len() + r.description.len() {
            assert(b[i] == r.description[i - w7.len()]);
        } else {
            assert(b[i] == 34);
        }
    }
    crate::bytes::lemma_split_lines_chunk(b, tail);
    assert(spec_csv_row(r) + tail =~= b + seq![10u8] + tail);
    assert(b.last() == 34);
}

/// The header row splits off whole and starts with a letter.
proof fn lemma_csv_header_split(tail: Seq<u8>)
    ensures
        spec_split_lines(spec_csv_header() + tail) == seq![spec_csv_header_body()]
            + spec_split_lines(tail),
        spec_csv_header_body().len() > 0,
        spec_csv_header_body().last() != 13,
{
    let b = spec_csv_header_body();
    crate::error::lemma_key_bytes(Field::TxId);
    crate::error::lemma_key_bytes(Field::TxType);
    crate::error::lemma_key_bytes(Field::FromUserId);
    crate::error::lemma_key_bytes(Field::ToUserId);
    crate::error::lemma_key_bytes(Field::Amount);
    crate::error::lemma_key_bytes(Field::Timestamp);
    crate::error::lemma_key_bytes(Field::Status);
    crate::error::lemma_key_bytes(Field::Description);
    let c = seq![44u8];
    let k0 = field_key(Field::TxId);
    let k1 = field_key(Field::TxType);
    let k2 = field_key(Field::FromUserId);
    let k3 = field_key(Field::ToUserId);
    let k4 = field_key(Field::Amount);
    let k5 = field_key(Field::Timestamp);
    let k6 = field_key(Field::Status);
    let k7 = field_key(Field::Description);
    assert forall|i: int| 0 <= i < b.len() implies #[trigger] b[i] != 10 by {
        let w0 = k0 + c;
        let w1 = w0 + k1 + c;
        let w2 = w1 + k2 + c;
        let w3 = w2 + k3 + c;
        let w4 = w3 + k4 + c;
        let w5 = w4 + k5 + c;
        let w6 = w5 + k6 + c;
        if i < w0.len() {
            if i < k0.len() {
                assert(b[i] == k0[i]);
            } else {
                assert(b[i] == 44);
            }
        } else if i < w1.len() {
            if i < w0.len() + k1.len() {
                assert(b[i] == k1[i - w0.len()]);
            } else {
                assert(b[i] == 44);
            }
        } else if i < w2.len() {
            if i < w1.len() + k2.len() {
                assert(b[i] == k2[i - w1.len()]);
            } else {
                assert(b[i] == 44);
            }
        } else if i < w3.len() {
            if i < w2.len() + k3.len() {
                assert(b[i] == k3[i - w2.len()]);
            } else {
                assert(b[i] == 44);
            }
        } else if i < w4.len() {
            if i < w3.len() + k4.len() {
                assert(b[i] == k4[i - w3.len()]);
            } else {
                assert(b[i] == 44);
            }
        } else if i < w5.len() {
            if i < w4.len() + k5.len() {
                assert(b[i] == k5[i - w4.len()]);
            } else {
                assert(b[i] == 44);
            }
        } else if i < w6.len() {
            if i < w5.len() + k6.len() {
                assert(b[i] == k6[i - w5.len()]);
            } else {
                assert(b[i] == 44);
            }
        } else {
            assert(b[i] == k7[i - w6.len()]);
        }
    }
    crate::bytes::lemma_split_lines_chunk(b, tail);
    assert(spec_csv_header() + tail =~= b + seq![10u8] + tail);
    assert(b.last() == k7.last());
}

/// Delimited-text round trip over the data rows, generalised over the
/// records already decoded.
proof fn lemma_csv_round_trip_aux(rs: Seq<RecordV>, done: Seq<RecordV>)
    requires
        forall|i: int| 0 <= i < rs.len() ==> csv_clean(#[trigger] rs[i]),
    ensures
        spec_csv_decode_lines(spec_split_lines(spec_csv_rows_of(rs)), true, done) == Ok::<
            Seq<RecordV>,
            ErrV,
        >(done + rs),
    decreases rs.len(),
{
    if rs.len() == 0 {
        assert(spec_csv_rows_of(rs) =~= Seq::<u8>::empty());
        assert(spec_split_lines(Seq::<u8>::empty()) =~= seq![Seq::<u8>::empty()]);
        assert(strip_cr(Seq::<u8>::empty()) =~= Seq::<u8>::empty());
        assert(seq![Seq::<u8>::empty()][0] =~= Seq::<u8>::empty());
        assert(seq![Seq::<u8>::empty()].skip(1) =~= Seq::<Seq<u8>>::empty());
        assert(spec_csv_decode_lines(Seq::<Seq<u8>>::empty(), true, done) == Ok::<
            Seq<RecordV>,
            ErrV,
        >(done));
        assert(done + rs =~= done);
    } else {
        let r = rs[0];
        let tail = spec_csv_rows_of(rs.skip(1));
        assert(spec_csv_rows_of(rs) == spec_csv_row(r) + tail);
        lemma_csv_row_split(r, tail);
        lemma_csv_parse_row(r);
        let b = spec_csv_row_body(r);
        let lines = seq![b] + spec_split_lines(tail);
        assert(lines[0] == b);
        assert(lines.skip(1) =~= spec_split_lines(tail));
        assert(strip_cr(b) == b);
        assert(forall|i: int|
            0 <= i < rs.skip(1).len() ==> csv_clean(#[trigger] rs.skip(1)[i]));
        lemma_csv_round_trip_aux(rs.skip(1), done + seq![r]);
        assert((done + seq![r]) + rs.skip(1) =~= done + rs);
    }
}

/// Delimited-text round trip: decoding the encoding of any record set
/// whose descriptions hold no double quote and no newline yields the
/// same record set.
pub proof fn lemma_csv_round_trip(rs: Seq<RecordV>)
    requires
        forall|i: int| 0 <= i < rs.len() ==> csv_clean(#[trigger] rs[i]),
    ensures
        spec_csv_decode(spec_csv_encode(rs)) == Ok::<Seq<RecordV>, ErrV>(rs),
{
    let tail = spec_csv_rows_of(rs);
    lemma_csv_header_split(tail);
    let hb = spec_csv_header_body();
    let lines = seq![hb] + spec_split_lines(tail);
    assert(lines[0] == hb);
    assert(lines.skip(1) =~= spec_split_lines(tail));
    assert(strip_cr(hb) == hb);
    lemma_csv_round_trip_aux(rs, Seq::empty());
    assert(Seq::<RecordV>::empty() + rs =~= rs);
}

/// Decoding an empty byte stream yields an empty record set, not an error.
pub proof fn lemma_csv_empty_input()
    ensures
        spec_csv_decode(Seq::empty()) == Ok::<Seq<RecordV>, ErrV>(Seq::empty()),
{
    assert(spec_split_lines(Seq::<u8>::empty()) =~= seq![Seq::<u8>::empty()]);
    assert(strip_cr(Seq::<u8>::empty()) =~= Seq::<u8>::empty());
    assert(seq![Seq::<u8>::empty()][0] =~= Seq::<u8>::empty());
    assert(seq![Seq::<u8>::empty()].skip(1) =~= Seq::<Seq<u8>>::empty());
    assert(spec_csv_decode_lines(Seq::<Seq<u8>>::empty(), false, Seq::<RecordV>::empty()) == Ok::<
        Seq<RecordV>,
        ErrV,
    >(Seq::<RecordV>::empty()));
}

} // verus!
