//! Codec library for YP Bank transaction records.
//!
//! A record set (an ordered sequence of [`TransactionRecord`]) can be read
//! from and written to three physical encodings: a fixed-header binary
//! format ([`bin_format`]), a comma-delimited text table ([`csv_format`]),
//! and a key/value block text format ([`txt_format`]).  Every decoder and
//! encoder is specified against a mathematical model of the byte stream,
//! and the round-trip laws relating them are proved in the format modules.

use vstd::prelude::*;

pub mod bin_format;
pub mod bytes;
pub mod comparer;
pub mod csv_format;
pub mod error;
pub mod txt_format;

pub use bin_format::YPBankBinRecords;
pub use csv_format::YPBankCsvRecords;
pub use txt_format::YPBankTxtRecords;

verus! {

/// The uniform read/write surface shared by the three codecs.
///
/// The trait fixes only the shape — decode a record set from a byte
/// stream, append its encoding to a byte sink — and each implementation
/// states its exact contract.
pub trait RecordParser: Sized {
    /// Decodes a record set from a byte stream.
    fn from_read(data: &[u8]) -> Result<Self, crate::error::ParseError>;

    /// Appends the encoded record set to a byte sink.
    fn write_to(&self, out: &mut Vec<u8>) -> Result<(), crate::error::EncodeError>;
}

/// The kind of a bank transaction.
#[derive(Clone, Copy, Debug, PartialEq, Eq, Structural)]
pub enum TxType {
    DEPOSIT,
    TRANSFER,
    WITHDRAWAL,
}

/// The settlement status of a bank transaction.
#[derive(Clone, Copy, Debug, PartialEq, Eq, Structural)]
pub enum Status {
    SUCCESS,
    FAILURE,
    PENDING,
}

/// One bank transaction record, the unit of data shared by all codecs.
///
/// The description is kept as raw UTF-8 bytes; the codecs frame and copy
/// those bytes without interpreting them.
#[derive(Clone, Debug)]
pub struct TransactionRecord {
    pub tx_id: u64,
    pub tx_type: TxType,
    pub from_user_id: u64,
    pub to_user_id: u64,
    pub amount: u64,
    pub timestamp: u64,
    pub status: Status,
    pub description: Vec<u8>,
}

/// The mathematical value of a [`TransactionRecord`].
pub ghost struct RecordV {
    pub tx_id: u64,
    pub tx_type: TxType,
    pub from_user_id: u64,
    pub to_user_id: u64,
    pub amount: u64,
    pub timestamp: u64,
    pub status: Status,
    pub description: Seq<u8>,
}

impl View for TransactionRecord {
    type V = RecordV;

    open spec fn view(&self) -> RecordV {
        RecordV {
            tx_id: self.tx_id,
            tx_type: self.tx_type,
            from_user_id: self.from_user_id,
            to_user_id: self.to_user_id,
            amount: self.amount,
            timestamp: self.timestamp,
            status: self.status,
            description: self.description@,
        }
    }
}

/// The mathematical value of an ordered sequence of records.
pub open spec fn recs_view(rs: Seq<TransactionRecord>) -> Seq<RecordV> {
    rs.map_values(|r: TransactionRecord| r@)
}

impl PartialEq for TransactionRecord {
    fn eq(&self, other: &Self) -> (r: bool) {
        self.tx_id == other.tx_id && self.tx_type == other.tx_type
            && self.from_user_id == other.from_user_id && self.to_user_id == other.to_user_id
            && self.amount == other.amount && self.timestamp == other.timestamp
            && self.status == other.status
            && crate::bytes::bytes_eq(self.description.as_slice(), other.description.as_slice())
    }
}

impl vstd::std_specs::cmp::PartialEqSpecImpl for TransactionRecord {
    open spec fn obeys_eq_spec() -> bool {
        true
    }

    open spec fn eq_spec(&self, other: &Self) -> bool {
        self@ == other@
    }
}

/// The numeric wire code of a transaction type, as the binary format carries it.
pub open spec fn tx_type_code(t: TxType) -> u8 {
    match t {
        TxType::DEPOSIT => 0,
        TxType::TRANSFER => 1,
        TxType::WITHDRAWAL => 2,
    }
}

/// The transaction type a numeric wire code stands for, if any.
pub open spec fn spec_tx_type_from_code(c: u8) -> Option<TxType> {
    if c == 0 {
        Some(TxType::DEPOSIT)
    } else if c == 1 {
        Some(TxType::TRANSFER)
    } else if c == 2 {
        Some(TxType::WITHDRAWAL)
    } else {
        None
    }
}

/// The numeric wire code of a status.
pub open spec fn status_code(s: Status) -> u8 {
    match s {
        Status::SUCCESS => 0,
        Status::FAILURE => 1,
        Status::PENDING => 2,
    }
}

/// The status a numeric wire code stands for, if any.
pub open spec fn spec_status_from_code(c: u8) -> Option<Status> {
    if c == 0 {
        Some(Status::SUCCESS)
    } else if c == 1 {
        Some(Status::FAILURE)
    } else if c == 2 {
        Some(Status::PENDING)
    } else {
        None
    }
}

pub fn tx_type_to_code(t: TxType) -> (c: u8)
    ensures
        c == tx_type_code(t),
{
    match t {
        TxType::DEPOSIT => 0,
        TxType::TRANSFER => 1,
        TxType::WITHDRAWAL => 2,
    }
}

pub fn tx_type_from_code(c: u8) -> (r: Option<TxType>)
    ensures
        r == spec_tx_type_from_code(c),
{
    if c == 0 {
        Some(TxType::DEPOSIT)
    } else if c == 1 {
        Some(TxType::TRANSFER)
    } else if c == 2 {
        Some(TxType::WITHDRAWAL)
    } else {
        None
    }
}

pub fn status_to_code(s: Status) -> (c: u8)
    ensures
        c == status_code(s),
{
    match s {
        Status::SUCCESS => 0,
        Status::FAILURE => 1,
        Status::PENDING => 2,
    }
}

pub fn status_from_code(c: u8) -> (r: Option<Status>)
    ensures
        r == spec_status_from_code(c),
{
    if c == 0 {
        Some(Status::SUCCESS)
    } else if c == 1 {
        Some(Status::FAILURE)
    } else if c == 2 {
        Some(Status::PENDING)
    } else {
        None
    }
}

/// The literal name of a transaction type, as the text formats carry it.
pub open spec fn tx_type_name(t: TxType) -> Seq<u8> {
    match t {
        TxType::DEPOSIT => seq![68u8, 69u8, 80u8, 79u8, 83u8, 73u8, 84u8],
        TxType::TRANSFER => seq![84u8, 82u8, 65u8, 78u8, 83u8, 70u8, 69u8, 82u8],
        TxType::WITHDRAWAL => seq![87u8, 73u8, 84u8, 72u8, 68u8, 82u8, 65u8, 87u8, 65u8, 76u8],
    }
}

/// The literal name of a status, as the text formats carry it.
pub open spec fn status_name(s: Status) -> Seq<u8> {
    match s {
        Status::SUCCESS => seq![83u8, 85u8, 67u8, 67u8, 69u8, 83u8, 83u8],
        Status::FAILURE => seq![70u8, 65u8, 73u8, 76u8, 85u8, 82u8, 69u8],
        Status::PENDING => seq![80u8, 69u8, 78u8, 68u8, 73u8, 78u8, 71u8],
    }
}

/// Appends the literal name of a transaction type.
pub fn push_tx_type_name(out: &mut Vec<u8>, t: TxType)
    ensures
        final(out)@ == old(out)@ + tx_type_name(t),
{
    match t {
        TxType::DEPOSIT => {
            out.push(68);
            out.push(69);
            out.push(80);
            out.push(79);
            out.push(83);
            out.push(73);
            out.push(84);
        },
        TxType::TRANSFER => {
            out.push(84);
            out.push(82);
            out.push(65);
            out.push(78);
            out.push(83);
            out.push(70);
            out.push(69);
            out.push(82);
        },
        TxType::WITHDRAWAL => {
            out.push(87);
            out.push(73);
            out.push(84);
            out.push(72);
            out.push(68);
            out.push(82);
            out.push(65);
            out.push(87);
            out.push(65);
            out.push(76);
        },
    }
    assert(out@ =~= old(out)@ + tx_type_name(t));
}

/// Appends the literal name of a status.
pub fn push_status_name(out: &mut Vec<u8>, s: Status)
    ensures
        final(out)@ == old(out)@ + status_name(s),
{
    match s {
        Status::SUCCESS => {
            out.push(83);
            out.push(85);
            out.push(67);
            out.push(67);
            out.push(69);
            out.push(83);
            out.push(83);
        },
        Status::FAILURE => {
            out.push(70);
            out.push(65);
            out.push(73);
            out.push(76);
            out.push(85);
            out.push(82);
            out.push(69);
        },
        Status::PENDING => {
            out.push(80);
            out.push(69);
            out.push(78);
            out.push(68);
            out.push(73);
            out.push(78);
            out.push(71);
        },
    }
    assert(out@ =~= old(out)@ + status_name(s));
}

/// The transaction type whose literal name a byte string spells, if any.
pub open spec fn spec_tx_type_from_name(s: Seq<u8>) -> Option<TxType> {
    if s == tx_type_name(TxType::DEPOSIT) {
        Some(TxType::DEPOSIT)
    } else if s == tx_type_name(TxType::TRANSFER) {
        Some(TxType::TRANSFER)
    } else if s == tx_type_name(TxType::WITHDRAWAL) {
        Some(TxType::WITHDRAWAL)
    } else {
        None
    }
}

/// The status whose literal name a byte string spells, if any.
pub open spec fn spec_status_from_name(s: Seq<u8>) -> Option<Status> {
    if s == status_name(Status::SUCCESS) {
        Some(Status::SUCCESS)
    } else if s == status_name(Status::FAILURE) {
        Some(Status::FAILURE)
    } else if s == status_name(Status::PENDING) {
        Some(Status::PENDING)
    } else {
        None
    }
}

pub fn tx_type_from_name(s: &[u8]) -> (r: Option<TxType>)
    ensures
        r == spec_tx_type_from_name(s@),
{
    let mut name: Vec<u8> = Vec::new();
    push_tx_type_name(&mut name, TxType::DEPOSIT);
    if crate::bytes::bytes_eq(s, name.as_slice()) {
        return Some(TxType::DEPOSIT);
    }
    let mut name: Vec<u8> = Vec::new();
    push_tx_type_name(&mut name, TxType::TRANSFER);
    if crate::bytes::bytes_eq(s, name.as_slice()) {
        return Some(TxType::TRANSFER);
    }
    let mut name: Vec<u8> = Vec::new();
    push_tx_type_name(&mut name, TxType::WITHDRAWAL);
    if crate::bytes::bytes_eq(s, name.as_slice()) {
        return Some(TxType::WITHDRAWAL);
    }
    None
}

pub fn status_from_name(s: &[u8]) -> (r: Option<Status>)
    ensures
        r == spec_status_from_name(s@),
{
    let mut name: Vec<u8> = Vec::new();
    push_status_name(&mut name, Status::SUCCESS);
    if crate::bytes::bytes_eq(s, name.as_slice()) {
        return Some(Status::SUCCESS);
    }
    let mut name: Vec<u8> = Vec::new();
    push_status_name(&mut name, Status::FAILURE);
    if crate::bytes::bytes_eq(s, name.as_slice()) {
        return Some(Status::FAILURE);
    }
    let mut name: Vec<u8> = Vec::new();
    push_status_name(&mut name, Status::PENDING);
    if crate::bytes::bytes_eq(s, name.as_slice()) {
        return Some(Status::PENDING);
    }
    None
}


/// Reading back the literal name of a transaction type recovers it.
pub proof fn lemma_tx_type_name_round_trip(t: TxType)
    ensures
        spec_tx_type_from_name(tx_type_name(t)) == Some(t),
{
    match t {
        TxType::DEPOSIT => {
        },
        TxType::TRANSFER => {
            assert(tx_type_name(TxType::TRANSFER).len() != tx_type_name(TxType::DEPOSIT).len());
        },
        TxType::WITHDRAWAL => {
            assert(tx_type_name(TxType::WITHDRAWAL).len() != tx_type_name(TxType::DEPOSIT).len());
            assert(tx_type_name(TxType::WITHDRAWAL).len() != tx_type_name(TxType::TRANSFER).len());
        },
    }
}

/// Reading back the literal name of a status recovers it.
pub proof fn lemma_status_name_round_trip(s: Status)
    ensures
        spec_status_from_name(status_name(s)) == Some(s),
{
    match s {
        Status::SUCCESS => {
        },
        Status::FAILURE => {
            assert(status_name(Status::FAILURE) != status_name(Status::SUCCESS)) by {
                assert(status_name(Status::FAILURE)[0] == 70);
                assert(status_name(Status::SUCCESS)[0] == 83);
            }
        },
        Status::PENDING => {
            assert(status_name(Status::PENDING) != status_name(Status::SUCCESS)) by {
                assert(status_name(Status::PENDING)[0] == 80);
                assert(status_name(Status::SUCCESS)[0] == 83);
            }
            assert(status_name(Status::PENDING) != status_name(Status::FAILURE)) by {
                assert(status_name(Status::PENDING)[0] == 80);
                assert(status_name(Status::FAILURE)[0] == 70);
            }
        },
    }
}

/// The bytes of every enumeration literal name are upper-case letters.
pub proof fn lemma_name_bytes(t: TxType, s: Status)
    ensures
        forall|i: int|
            0 <= i < tx_type_name(t).len() ==> 65 <= #[trigger] tx_type_name(t)[i] <= 90,
        forall|i: int|
            0 <= i < status_name(s).len() ==> 65 <= #[trigger] status_name(s)[i] <= 90,
        tx_type_name(t).len() >= 1,
        status_name(s).len() >= 1,
{
    assert forall|i: int| 0 <= i < tx_type_name(t).len() implies 65 <= #[trigger] tx_type_name(
        t,
    )[i] <= 90 by {
        match t {
            TxType::DEPOSIT => {
                assert(tx_type_name(t) =~= seq![68u8, 69u8, 80u8, 79u8, 83u8, 73u8, 84u8]);
            },
            TxType::TRANSFER => {
                assert(tx_type_name(t) =~= seq![84u8, 82u8, 65u8, 78u8, 83u8, 70u8, 69u8, 82u8]);
            },
            TxType::WITHDRAWAL => {
                assert(tx_type_name(t) =~= seq![
                    87u8,
                    73u8,
                    84u8,
                    72u8,
                    68u8,
                    82u8,
                    65u8,
                    87u8,
                    65u8,
                    76u8,
                ]);
            },
        }
    }
    assert forall|i: int| 0 <= i < status_name(s).len() implies 65 <= #[trigger] status_name(
        s,
    )[i] <= 90 by {
        match s {
            Status::SUCCESS => {
                assert(status_name(s) =~= seq![83u8, 85u8, 67u8, 67u8, 69u8, 83u8, 83u8]);
            },
            Status::FAILURE => {
                assert(status_name(s) =~= seq![70u8, 65u8, 73u8, 76u8, 85u8, 82u8, 69u8]);
            },
            Status::PENDING => {
                assert(status_name(s) =~= seq![80u8, 69u8, 78u8, 68u8, 73u8, 78u8, 71u8]);
            },
        }
    }
}


/// Cross-format equivalence: for any record set whose descriptions avoid
/// every format's problem characters (double quotes and newlines, and a
/// length the binary length field can declare), encoding through any of
/// the three codecs and decoding through the same codec yields the same
/// record set, so any two codecs agree on the same logical data.
pub proof fn lemma_cross_format_equivalence(rs: Seq<RecordV>)
    requires
        forall|i: int| 0 <= i < rs.len() ==> bin_format::bin_desc_fits(#[trigger] rs[i]),
        forall|i: int| 0 <= i < rs.len() ==> txt_format::txt_clean(#[trigger] rs[i]),
        forall|i: int| 0 <= i < rs.len() ==> csv_format::csv_clean(#[trigger] rs[i]),
    ensures
        bin_format::spec_bin_decode(bin_format::spec_bin_encode(rs)) == Ok::<
            Seq<RecordV>,
            crate::error::ErrV,
        >(rs),
        txt_format::spec_txt_decode(txt_format::spec_txt_encode(rs)) == Ok::<
            Seq<RecordV>,
            crate::error::ErrV,
        >(rs),
        csv_format::spec_csv_decode(csv_format::spec_csv_encode(rs)) == Ok::<
            Seq<RecordV>,
            crate::error::ErrV,
        >(rs),
        bin_format::spec_bin_decode(bin_format::spec_bin_encode(rs)) == txt_format::spec_txt_decode(
            txt_format::spec_txt_encode(rs),
        ),
        txt_format::spec_txt_decode(txt_format::spec_txt_encode(rs)) == csv_format::spec_csv_decode(
            csv_format::spec_csv_encode(rs),
        ),
{
    bin_format::lemma_bin_round_trip(rs);
    txt_format::lemma_txt_round_trip(rs);
    csv_format::lemma_csv_round_trip(rs);
}

impl From<YPBankBinRecords> for YPBankCsvRecords {
    fn from(src: YPBankBinRecords) -> (r: Self) {
        YPBankCsvRecords { records: src.records }
    }
}

impl vstd::std_specs::convert::FromSpecImpl<YPBankBinRecords> for YPBankCsvRecords {
    open spec fn obeys_from_spec() -> bool {
        true
    }

    open spec fn from_spec(src: YPBankBinRecords) -> Self {
        YPBankCsvRecords { records: src.records }
    }
}

impl From<YPBankBinRecords> for YPBankTxtRecords {
    fn from(src: YPBankBinRecords) -> (r: Self) {
        YPBankTxtRecords { records: src.records }
    }
}

impl vstd::std_specs::convert::FromSpecImpl<YPBankBinRecords> for YPBankTxtRecords {
    open spec fn obeys_from_spec() -> bool {
        true
    }

    open spec fn from_spec(src: YPBankBinRecords) -> Self {
        YPBankTxtRecords { records: src.records }
    }
}

impl From<YPBankCsvRecords> for YPBankBinRecords {
    fn from(src: YPBankCsvRecords) -> (r: Self) {
        YPBankBinRecords { records: src.records }
    }
}

impl vstd::std_specs::convert::FromSpecImpl<YPBankCsvRecords> for YPBankBinRecords {
    open spec fn obeys_from_spec() -> bool {
        true
    }

    open spec fn from_spec(src: YPBankCsvRecords) -> Self {
        YPBankBinRecords { records: src.records }
    }
}

impl From<YPBankCsvRecords> for YPBankTxtRecords {
    fn from(src: YPBankCsvRecords) -> (r: Self) {
        YPBankTxtRecords { records: src.records }
    }
}

impl vstd::std_specs::convert::FromSpecImpl<YPBankCsvRecords> for YPBankTxtRecords {
    open spec fn obeys_from_spec() -> bool {
        true
    }

    open spec fn from_spec(src: YPBankCsvRecords) -> Self {
        YPBankTxtRecords { records: src.records }
    }
}

impl From<YPBankTxtRecords> for YPBankBinRecords {
    fn from(src: YPBankTxtRecords) -> (r: Self) {
        YPBankBinRecords { records: src.records }
    }
}

impl vstd::std_specs::convert::FromSpecImpl<YPBankTxtRecords> for YPBankBinRecords {
    open spec fn obeys_from_spec() -> bool {
        true
    }

    open spec fn from_spec(src: YPBankTxtRecords) -> Self {
        YPBankBinRecords { records: src.records }
    }
}

impl From<YPBankTxtRecords> for YPBankCsvRecords {
    fn from(src: YPBankTxtRecords) -> (r: Self) {
        YPBankCsvRecords { records: src.records }
    }
}

impl vstd::std_specs::convert::FromSpecImpl<YPBankTxtRecords> for YPBankCsvRecords {
    open spec fn obeys_from_spec() -> bool {
        true
    }

    open spec fn from_spec(src: YPBankTxtRecords) -> Self {
        YPBankCsvRecords { records: src.records }
    }
}


/// Compares two record slices element-wise.
pub fn records_eq(a: &Vec<TransactionRecord>, b: &Vec<TransactionRecord>) -> (r: bool)
    ensures
        r == (recs_view(a@) == recs_view(b@)),
{
    if a.len() != b.len() {
        assert(recs_view(a@).len() != recs_view(b@).len());
        return false;
    }
    let n = a.len();
    let mut i: usize = 0;
    while i < n
        invariant
            n == a.len() == b.len(),
            i <= n,
            forall|j: int| 0 <= j < i ==> recs_view(a@)[j] == recs_view(b@)[j],
        decreases n - i,
    {
        if !(a[i] == b[i]) {
            assert(recs_view(a@)[i as int] == a@[i as int]@);
            assert(recs_view(b@)[i as int] == b@[i as int]@);
            assert(recs_view(a@) != recs_view(b@));
            return false;
        }
        proof {
            assert(recs_view(a@)[i as int] == a@[i as int]@);
            assert(recs_view(b@)[i as int] == b@[i as int]@);
        }
        i += 1;
    }
    assert(recs_view(a@) =~= recs_view(b@));
    true
}

impl PartialEq for YPBankBinRecords {
    fn eq(&self, other: &Self) -> (r: bool) {
        records_eq(&self.records, &other.records)
    }
}

impl vstd::std_specs::cmp::PartialEqSpecImpl for YPBankBinRecords {
    open spec fn obeys_eq_spec() -> bool {
        true
    }

    open spec fn eq_spec(&self, other: &Self) -> bool {
        self@ == other@
    }
}

impl PartialEq for YPBankCsvRecords {
    fn eq(&self, other: &Self) -> (r: bool) {
        records_eq(&self.records, &other.records)
    }
}

impl vstd::std_specs::cmp::PartialEqSpecImpl for YPBankCsvRecords {
    open spec fn obeys_eq_spec() -> bool {
        true
    }

    open spec fn eq_spec(&self, other: &Self) -> bool {
        self@ == other@
    }
}

impl PartialEq for YPBankTxtRecords {
    fn eq(&self, other: &Self) -> (r: bool) {
        records_eq(&self.records, &other.records)
    }
}

impl vstd::std_specs::cmp::PartialEqSpecImpl for YPBankTxtRecords {
    open spec fn obeys_eq_spec() -> bool {
        true
    }

    open spec fn eq_spec(&self, other: &Self) -> bool {
        self@ == other@
    }
}

} // verus!
