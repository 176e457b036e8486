use ypbank_codec::bin_format::YPBankBinRecords;
use ypbank_codec::csv_format::YPBankCsvRecords;
use ypbank_codec::txt_format::YPBankTxtRecords;
use ypbank_codec::{RecordParser, Status, TransactionRecord, TxType};

fn sample_records() -> Vec<TransactionRecord> {
    vec![
        TransactionRecord {
            tx_id: 1,
            tx_type: TxType::DEPOSIT,
            from_user_id: 10,
            to_user_id: 20,
            amount: 12345,
            timestamp: 1633036860000,
            status: Status::SUCCESS,
            description: b"Record number 1".to_vec(),
        },
        TransactionRecord {
            tx_id: 2,
            tx_type: TxType::WITHDRAWAL,
            from_user_id: 30,
            to_user_id: 40,
            amount: 0,
            timestamp: 0,
            status: Status::PENDING,
            description: b"plain text".to_vec(),
        },
    ]
}

#[test]
fn test_cross_format_equivalence() {
    // Decoding the same logical data via any two codecs yields equal
    // record sets when descriptions avoid the problem characters.
    let bin_set = YPBankBinRecords::new(sample_records());
    let txt_set = YPBankTxtRecords::new(sample_records());
    let csv_set = YPBankCsvRecords::new(sample_records());

    let mut bin_bytes: Vec<u8> = Vec::new();
    bin_set.write_to(&mut bin_bytes).unwrap();
    let mut txt_bytes: Vec<u8> = Vec::new();
    txt_set.write_to(&mut txt_bytes).unwrap();
    let mut csv_bytes: Vec<u8> = Vec::new();
    csv_set.write_to(&mut csv_bytes).unwrap();

    let from_bin = YPBankBinRecords::from_read(&bin_bytes).unwrap();
    let from_txt = YPBankTxtRecords::from_read(&txt_bytes).unwrap();
    let from_csv = YPBankCsvRecords::from_read(&csv_bytes).unwrap();

    assert_eq!(from_bin.records, sample_records());
    assert_eq!(from_txt.records, sample_records());
    assert_eq!(from_csv.records, sample_records());
}

#[test]
fn test_record_set_conversions() {
    // Conversion between the codecs' record sets is a data-preserving
    // relabeling.
    let bin_set = YPBankBinRecords::new(sample_records());
    let csv_set: YPBankCsvRecords = YPBankCsvRecords::from(bin_set);
    assert_eq!(csv_set.records, sample_records());
    let txt_set: YPBankTxtRecords = YPBankTxtRecords::from(csv_set);
    assert_eq!(txt_set.records, sample_records());
    let back: YPBankBinRecords = YPBankBinRecords::from(txt_set);
    assert_eq!(back.records, sample_records());
}

#[test]
fn test_convert_txt_to_bin_stream() {
    // Decode block text, re-encode as binary, decode again: the records
    // carry over unchanged.
    let txt_set = YPBankTxtRecords::new(sample_records());
    let mut txt_bytes: Vec<u8> = Vec::new();
    txt_set.write_to(&mut txt_bytes).unwrap();

    let decoded = YPBankTxtRecords::from_read(&txt_bytes).unwrap();
    let bin_set = YPBankBinRecords::from(decoded);
    let mut bin_bytes: Vec<u8> = Vec::new();
    bin_set.write_to(&mut bin_bytes).unwrap();
    let from_bin = YPBankBinRecords::from_read(&bin_bytes).unwrap();
    assert_eq!(from_bin.records, sample_records());
}

#[test]
fn test_u64_extremes_round_trip() {
    let rec = TransactionRecord {
        tx_id: u64::MAX,
        tx_type: TxType::TRANSFER,
        from_user_id: 0,
        to_user_id: u64::MAX,
        amount: 18446744073709551615,
        timestamp: 1,
        status: Status::FAILURE,
        description: b"edge".to_vec(),
    };
    let csv_set = YPBankCsvRecords::new(vec![rec.clone()]);
    let mut bytes: Vec<u8> = Vec::new();
    csv_set.write_to(&mut bytes).unwrap();
    let decoded = YPBankCsvRecords::from_read(&bytes).unwrap();
    assert_eq!(decoded.records[0].tx_id, u64::MAX);
    assert_eq!(decoded.records[0].amount, u64::MAX);

    let txt_set = YPBankTxtRecords::new(vec![rec]);
    let mut bytes: Vec<u8> = Vec::new();
    txt_set.write_to(&mut bytes).unwrap();
    let decoded = YPBankTxtRecords::from_read(&bytes).unwrap();
    assert_eq!(decoded.records[0].to_user_id, u64::MAX);
}
