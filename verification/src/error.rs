//! The error taxonomy of the codecs.
//!
//! Every decode failure is a [`ParseError`]; every encode failure is an
//! [`EncodeError`].  Each variant carries the offending values, and
//! [`ParseError::message`] renders a diagnostic line whose exact byte
//! content is specified by [`spec_message`].

use vstd::prelude::*;
use vstd::string::StringSliceAdditionalSpecFns;

use crate::bytes::{push_dec_u64, push_hex_u32, spec_dec_u64, spec_hex_u32};

verus! {

/// A field of a transaction record, named in decode errors.
#[derive(Clone, Copy, Debug, PartialEq, Eq, Structural)]
pub enum Field {
    TxId,
    TxType,
    FromUserId,
    ToUserId,
    Amount,
    Timestamp,
    Status,
    Description,
}

/// The key under which a field appears in the text formats
/// (`TX_ID`, `TX_TYPE`, `FROM_USER_ID`, `TO_USER_ID`, `AMOUNT`,
/// `TIMESTAMP`, `STATUS`, `DESCRIPTION`, spelled as ASCII byte values).
pub open spec fn field_key(f: Field) -> Seq<u8> {
    match f {
        Field::TxId => seq![84u8, 88u8, 95u8, 73u8, 68u8],
        Field::TxType => seq![84u8, 88u8, 95u8, 84u8, 89u8, 80u8, 69u8],
        Field::FromUserId => seq![70u8, 82u8, 79u8, 77u8, 95u8, 85u8, 83u8, 69u8, 82u8, 95u8, 73u8, 68u8],
        Field::ToUserId => seq![84u8, 79u8, 95u8, 85u8, 83u8, 69u8, 82u8, 95u8, 73u8, 68u8],
        Field::Amount => seq![65u8, 77u8, 79u8, 85u8, 78u8, 84u8],
        Field::Timestamp => seq![84u8, 73u8, 77u8, 69u8, 83u8, 84u8, 65u8, 77u8, 80u8],
        Field::Status => seq![83u8, 84u8, 65u8, 84u8, 85u8, 83u8],
        Field::Description => seq![68u8, 69u8, 83u8, 67u8, 82u8, 73u8, 80u8, 84u8, 73u8, 79u8, 78u8],
    }
}

/// Appends the text-format key of a field.
pub fn push_field_key(out: &mut Vec<u8>, f: Field)
    ensures
        final(out)@ == old(out)@ + field_key(f),
{
    match f {
        Field::TxId => {
            out.push(84);
            out.push(88);
            out.push(95);
            out.push(73);
            out.push(68);
        },
        Field::TxType => {
            out.push(84);
            out.push(88);
            out.push(95);
            out.push(84);
            out.push(89);
            out.push(80);
            out.push(69);
        },
        Field::FromUserId => {
            out.push(70);
            out.push(82);
            out.push(79);
            out.push(77);
            out.push(95);
            out.push(85);
            out.push(83);
            out.push(69);
            out.push(82);
            out.push(95);
            out.push(73);
            out.push(68);
        },
        Field::ToUserId => {
            out.push(84);
            out.push(79);
            out.push(95);
            out.push(85);
            out.push(83);
            out.push(69);
            out.push(82);
            out.push(95);
            out.push(73);
            out.push(68);
        },
        Field::Amount => {
            out.push(65);
            out.push(77);
            out.push(79);
            out.push(85);
            out.push(78);
            out.push(84);
        },
        Field::Timestamp => {
            out.push(84);
            out.push(73);
            out.push(77);
            out.push(69);
            out.push(83);
            out.push(84);
            out.push(65);
            out.push(77);
            out.push(80);
        },
        Field::Status => {
            out.push(83);
            out.push(84);
            out.push(65);
            out.push(84);
            out.push(85);
            out.push(83);
        },
        Field::Description => {
            out.push(68);
            out.push(69);
            out.push(83);
            out.push(67);
            out.push(82);
            out.push(73);
            out.push(80);
            out.push(84);
            out.push(73);
            out.push(79);
            out.push(78);
        },
    }
    assert(out@ =~= old(out)@ + field_key(f));
}

/// Whether a byte string spells the text-format key of a field.
pub fn bytes_eq_field_key(k: &[u8], f: Field) -> (r: bool)
    ensures
        r == (k@ == field_key(f)),
{
    let mut key: Vec<u8> = Vec::new();
    push_field_key(&mut key, f);
    proof {
        assert(key@ =~= field_key(f));
    }
    crate::bytes::bytes_eq(k, key.as_slice())
}

/// Why a byte stream failed to decode into a record set.
#[derive(Debug)]
pub enum ParseError {
    /// The stream ended inside an 8-byte binary frame header.
    TruncatedHeader { have: usize },
    /// A binary frame header carried the wrong magic constant.
    InvalidMagic { found: u32 },
    /// The stream ended before a frame's declared body was complete.
    TruncatedBody { need: u32, have: usize },
    /// A frame body is too short to hold the fixed part of a record.
    TruncatedRecord { have: usize },
    /// A transaction-type wire code outside the closed enumeration.
    InvalidTxType { value: u8 },
    /// A status wire code outside the closed enumeration.
    InvalidStatus { value: u8 },
    /// A frame body holds fewer description bytes than it declares.
    DescriptionBytes { need: u32, have: usize },
    /// A raw record's declared description length disagrees with its bytes.
    DescriptionLengthMismatch { expected: u32, actual: usize },
    /// A block-text data line lacks the `": "` key/value separator.
    MalformedLine { line: Vec<u8> },
    /// A block closed without one of the eight required keys.
    MissingKey { key: Field },
    /// A field value failed to parse as an integer or an enumeration literal.
    BadFieldValue { field: Field, value: Vec<u8> },
    /// A delimited-text row with the wrong number of fields.
    BadRow { found: usize },
    /// A delimited-text quoted field not closed or not followed by a comma.
    BadQuoting { line: Vec<u8> },
}

/// The mathematical value of a [`ParseError`].
pub ghost enum ErrV {
    TruncatedHeader { have: int },
    InvalidMagic { found: u32 },
    TruncatedBody { need: u32, have: int },
    TruncatedRecord { have: int },
    InvalidTxType { value: u8 },
    InvalidStatus { value: u8 },
    DescriptionBytes { need: u32, have: int },
    DescriptionLengthMismatch { expected: u32, actual: int },
    MalformedLine { line: Seq<u8> },
    MissingKey { key: Field },
    BadFieldValue { field: Field, value: Seq<u8> },
    BadRow { found: int },
    BadQuoting { line: Seq<u8> },
}

impl View for ParseError {
    type V = ErrV;

    open spec fn view(&self) -> ErrV {
        match self {
            ParseError::TruncatedHeader { have } => ErrV::TruncatedHeader { have: *have as int },
            ParseError::InvalidMagic { found } => ErrV::InvalidMagic { found: *found },
            ParseError::TruncatedBody { need, have } => ErrV::TruncatedBody {
                need: *need,
                have: *have as int,
            },
            ParseError::TruncatedRecord { have } => ErrV::TruncatedRecord { have: *have as int },
            ParseError::InvalidTxType { value } => ErrV::InvalidTxType { value: *value },
            ParseError::InvalidStatus { value } => ErrV::InvalidStatus { value: *value },
            ParseError::DescriptionBytes { need, have } => ErrV::DescriptionBytes {
                need: *need,
                have: *have as int,
            },
            ParseError::DescriptionLengthMismatch { expected, actual } => ErrV::DescriptionLengthMismatch {
                expected: *expected,
                actual: *actual as int,
            },
            ParseError::MalformedLine { line } => ErrV::MalformedLine { line: line@ },
            ParseError::MissingKey { key } => ErrV::MissingKey { key: *key },
            ParseError::BadFieldValue { field, value } => ErrV::BadFieldValue {
                field: *field,
                value: value@,
            },
            ParseError::BadRow { found } => ErrV::BadRow { found: *found as int },
            ParseError::BadQuoting { line } => ErrV::BadQuoting { line: line@ },
        }
    }
}

/// The diagnostic line of a decode error, as UTF-8 bytes.
pub open spec fn spec_message(e: ErrV) -> Seq<u8> {
    match e {
        ErrV::TruncatedHeader { have } => "Truncated frame header: need 8 bytes, have ".spec_bytes()
            + spec_dec_u64(have as u64),
        ErrV::InvalidMagic { found } => "Invalid magic 0x".spec_bytes() + spec_hex_u32(found),
        ErrV::TruncatedBody { need, have } => "Truncated record body: need ".spec_bytes()
            + spec_dec_u64(need as u64) + ", have ".spec_bytes() + spec_dec_u64(have as u64),
        ErrV::TruncatedRecord { have } => "Truncated record: need 46 bytes, have ".spec_bytes()
            + spec_dec_u64(have as u64),
        ErrV::InvalidTxType { value } => "Invalid transaction type value: ".spec_bytes()
            + spec_dec_u64(value as u64),
        ErrV::InvalidStatus { value } => "Invalid transaction status value: ".spec_bytes()
            + spec_dec_u64(value as u64),
        ErrV::DescriptionBytes { need, have } => "Not enough bytes for description: need ".spec_bytes()
            + spec_dec_u64(need as u64) + ", have ".spec_bytes() + spec_dec_u64(have as u64),
        ErrV::DescriptionLengthMismatch { expected, actual } => "Description length mismatch: expected ".spec_bytes()
            + spec_dec_u64(expected as u64) + ", actual ".spec_bytes() + spec_dec_u64(
            actual as u64,
        ),
        ErrV::MalformedLine { line } => "Неправильный формат строки: '".spec_bytes() + line
            + "'".spec_bytes(),
        ErrV::MissingKey { key } => "Отсутствует ключ: ".spec_bytes() + field_key(key),
        ErrV::BadFieldValue { field, value } => "Ошибка парсинга '".spec_bytes() + field_key(field)
            + "': ".spec_bytes() + value,
        ErrV::BadRow { found } => "Wrong number of fields in row: expected 8, have ".spec_bytes()
            + spec_dec_u64(found as u64),
        ErrV::BadQuoting { line } => "Malformed quoting in row: '".spec_bytes() + line
            + "'".spec_bytes(),
    }
}

/// Appends the UTF-8 bytes of a string slice.
fn push_lit(out: &mut Vec<u8>, s: &str)
    ensures
        final(out)@ == old(out)@ + s.spec_bytes(),
{
    out.extend_from_slice(s.as_bytes());
}

impl ParseError {
    /// Renders the diagnostic line of this error.
    pub fn message(&self) -> (r: Vec<u8>)
        ensures
            r@ == spec_message(self@),
    {
        let mut out: Vec<u8> = Vec::new();
        match self {
            ParseError::TruncatedHeader { have } => {
                push_lit(&mut out, "Truncated frame header: need 8 bytes, have ");
                push_dec_u64(&mut out, *have as u64);
            },
            ParseError::InvalidMagic { found } => {
                push_lit(&mut out, "Invalid magic 0x");
                push_hex_u32(&mut out, *found);
            },
            ParseError::TruncatedBody { need, have } => {
                push_lit(&mut out, "Truncated record body: need ");
                push_dec_u64(&mut out, *need as u64);
                push_lit(&mut out, ", have ");
                push_dec_u64(&mut out, *have as u64);
            },
            ParseError::TruncatedRecord { have } => {
                push_lit(&mut out, "Truncated record: need 46 bytes, have ");
                push_dec_u64(&mut out, *have as u64);
            },
            ParseError::InvalidTxType { value } => {
                push_lit(&mut out, "Invalid transaction type value: ");
                push_dec_u64(&mut out, *value as u64);
            },
            ParseError::InvalidStatus { value } => {
                push_lit(&mut out, "Invalid transaction status value: ");
                push_dec_u64(&mut out, *value as u64);
            },
            ParseError::DescriptionBytes { need, have } => {
                push_lit(&mut out, "Not enough bytes for description: need ");
                push_dec_u64(&mut out, *need as u64);
                push_lit(&mut out, ", have ");
                push_dec_u64(&mut out, *have as u64);
            },
            ParseError::DescriptionLengthMismatch { expected, actual } => {
                push_lit(&mut out, "Description length mismatch: expected ");
                push_dec_u64(&mut out, *expected as u64);
                push_lit(&mut out, ", actual ");
                push_dec_u64(&mut out, *actual as u64);
            },
            ParseError::MalformedLine { line } => {
                push_lit(&mut out, "Неправильный формат строки: '");
                out.extend_from_slice(line.as_slice());
                push_lit(&mut out, "'");
            },
            ParseError::MissingKey { key } => {
                push_lit(&mut out, "Отсутствует ключ: ");
                push_field_key(&mut out, *key);
            },
            ParseError::BadFieldValue { field, value } => {
                push_lit(&mut out, "Ошибка парсинга '");
                push_field_key(&mut out, *field);
                push_lit(&mut out, "': ");
                out.extend_from_slice(value.as_slice());
            },
            ParseError::BadRow { found } => {
                push_lit(&mut out, "Wrong number of fields in row: expected 8, have ");
                push_dec_u64(&mut out, *found as u64);
            },
            ParseError::BadQuoting { line } => {
                push_lit(&mut out, "Malformed quoting in row: '");
                out.extend_from_slice(line.as_slice());
                push_lit(&mut out, "'");
            },
        }
        assert(out@ =~= spec_message(self@));
        out
    }
}

/// Why a record set failed to encode.
#[derive(Clone, Copy, Debug, PartialEq, Eq, Structural)]
pub enum EncodeError {
    /// A description longer than the binary length field can declare.
    DescriptionTooLong { len: usize },
}

/// The diagnostic line of an encode error, as UTF-8 bytes.
pub open spec fn spec_encode_message(e: EncodeError) -> Seq<u8> {
    match e {
        EncodeError::DescriptionTooLong { len } => "Description too long for binary framing: ".spec_bytes()
            + spec_dec_u64(len as u64) + " bytes".spec_bytes(),
    }
}

impl EncodeError {
    /// Renders the diagnostic line of this error.
    pub fn message(&self) -> (r: Vec<u8>)
        ensures
            r@ == spec_encode_message(*self),
    {
        let mut out: Vec<u8> = Vec::new();
        match self {
            EncodeError::DescriptionTooLong { len } => {
                push_lit(&mut out, "Description too long for binary framing: ");
                push_dec_u64(&mut out, *len as u64);
                push_lit(&mut out, " bytes");
            },
        }
        assert(out@ =~= spec_encode_message(*self));
        out
    }
}


/// The bytes of every text-format key are upper-case letters or the
/// underscore, and every key is nonempty.
pub proof fn lemma_key_bytes(f: Field)
    ensures
        forall|i: int|
            0 <= i < field_key(f).len() ==> (65 <= #[trigger] field_key(f)[i] <= 90 || field_key(
                f,
            )[i] == 95),
        field_key(f).len() >= 1,
{
    assert forall|i: int| 0 <= i < field_key(f).len() implies (65 <= #[trigger] field_key(f)[i]
        <= 90 || field_key(f)[i] == 95) by {
        match f {
            Field::TxId => {
                assert(field_key(f) =~= seq![84u8, 88u8, 95u8, 73u8, 68u8]);
            },
            Field::TxType => {
                assert(field_key(f) =~= seq![84u8, 88u8, 95u8, 84u8, 89u8, 80u8, 69u8]);
            },
            Field::FromUserId => {
                assert(field_key(f) =~= seq![
                    70u8,
                    82u8,
                    79u8,
                    77u8,
                    95u8,
                    85u8,
                    83u8,
                    69u8,
                    82u8,
                    95u8,
                    73u8,
                    68u8,
                ]);
            },
            Field::ToUserId => {
                assert(field_key(f) =~= seq![
                    84u8,
                    79u8,
                    95u8,
                    85u8,
                    83u8,
                    69u8,
                    82u8,
                    95u8,
                    73u8,
                    68u8,
                ]);
            },
            Field::Amount => {
                assert(field_key(f) =~= seq![65u8, 77u8, 79u8, 85u8, 78u8, 84u8]);
            },
            Field::Timestamp => {
                assert(field_key(f) =~= seq![84u8, 73u8, 77u8, 69u8, 83u8, 84u8, 65u8, 77u8, 80u8]);
            },
            Field::Status => {
                assert(field_key(f) =~= seq![83u8, 84u8, 65u8, 84u8, 85u8, 83u8]);
            },
            Field::Description => {
                assert(field_key(f) =~= seq![
                    68u8,
                    69u8,
                    83u8,
                    67u8,
                    82u8,
                    73u8,
                    80u8,
                    84u8,
                    73u8,
                    79u8,
                    78u8,
                ]);
            },
        }
    }
}

/// The two keys of equal length differ in their first byte, so all eight
/// keys are pairwise distinct.
pub proof fn lemma_keys_distinct(f1: Field, f2: Field)
    ensures
        f1 != f2 ==> field_key(f1) != field_key(f2),
{
    if f1 != f2 && field_key(f1).len() == field_key(f2).len() {
        assert(field_key(f1)[0] != field_key(f2)[0]);
    }
}

} // verus!
