use ypbank_codec::bin_format::{
    parse_bin_records, write_record_to, BinRecord, YPBankBinRecords, BODY_FIXED_PART_SIZE, MAGIC,
};
use ypbank_codec::error::ParseError;
use ypbank_codec::{RecordParser, Status, TransactionRecord, TxType};

fn msg(e: &ParseError) -> String {
    String::from_utf8(e.message()).unwrap()
}

#[test]
fn test_read_write_bin_records() {
    let test_bin_records = YPBankBinRecords {
        records: vec![TransactionRecord {
            tx_type: TxType::DEPOSIT,
            status: Status::FAILURE,
            tx_id: 1000000000000999,
            from_user_id: 0,
            to_user_id: 3314635390654657431,
            amount: 100000,
            timestamp: 1633096800000,
            description: b"Record number 1000".to_vec(),
        }],
    };

    let mut buffer: Vec<u8> = Vec::new();
    test_bin_records.write_to(&mut buffer).unwrap();

    let buff_record = YPBankBinRecords::from_read(&buffer).unwrap();
    assert_eq!(test_bin_records, buff_record);
}

#[test]
fn test_invalid_magic() {
    let mut data = Vec::new();
    data.extend_from_slice(&0xDEADBEEFu32.to_be_bytes()); // wrong magic
    data.extend_from_slice(&(100u32).to_be_bytes()); // record_size (value irrelevant)

    let result = YPBankBinRecords::from_read(&data);
    assert!(result.is_err());
    let err = result.unwrap_err();
    assert!(matches!(err, ParseError::InvalidMagic { found: 0xDEADBEEF }));
    assert_eq!(msg(&err), "Invalid magic 0xDEADBEEF");
}

#[test]
fn test_invalid_tx_type() {
    let mut data = Vec::new();
    data.extend_from_slice(&MAGIC.to_be_bytes());
    let body_size = BODY_FIXED_PART_SIZE + 5; // desc_len = 5
    data.extend_from_slice(&(body_size as u32).to_be_bytes());

    data.extend_from_slice(&1u64.to_be_bytes());
    data.push(3); // tx_type -> invalid
    data.extend_from_slice(&2u64.to_be_bytes());
    data.extend_from_slice(&3u64.to_be_bytes());
    data.extend_from_slice(&100u64.to_be_bytes());
    data.extend_from_slice(&123456u64.to_be_bytes());
    data.push(0);
    data.extend_from_slice(&5u32.to_be_bytes());
    data.extend_from_slice(b"hello");

    let result = YPBankBinRecords::from_read(&data);
    assert!(result.is_err());
    let err = result.unwrap_err();
    assert!(matches!(err, ParseError::InvalidTxType { value: 3 }));
    assert!(msg(&err).contains("Invalid transaction type value: 3"));
}

#[test]
fn test_invalid_status() {
    let mut data = Vec::new();
    data.extend_from_slice(&MAGIC.to_be_bytes());
    let body_size = BODY_FIXED_PART_SIZE + 5;
    data.extend_from_slice(&(body_size as u32).to_be_bytes());

    data.extend_from_slice(&1u64.to_be_bytes());
    data.push(0);
    data.extend_from_slice(&2u64.to_be_bytes());
    data.extend_from_slice(&3u64.to_be_bytes());
    data.extend_from_slice(&100u64.to_be_bytes());
    data.extend_from_slice(&123456u64.to_be_bytes());
    data.push(5); // status -> invalid (5)
    data.extend_from_slice(&5u32.to_be_bytes());
    data.extend_from_slice(b"hello");

    let result = YPBankBinRecords::from_read(&data);
    assert!(result.is_err());
    let err = result.unwrap_err();
    assert!(matches!(err, ParseError::InvalidStatus { value: 5 }));
    assert!(msg(&err).contains("Invalid transaction status value: 5"));
}

#[test]
fn test_not_enough_bytes_for_description() {
    let mut data = Vec::new();
    data.extend_from_slice(&MAGIC.to_be_bytes());
    let body_size = BODY_FIXED_PART_SIZE + 5;
    data.extend_from_slice(&(body_size as u32).to_be_bytes());

    data.extend_from_slice(&1u64.to_be_bytes());
    data.push(0);
    data.extend_from_slice(&2u64.to_be_bytes());
    data.extend_from_slice(&3u64.to_be_bytes());
    data.extend_from_slice(&100u64.to_be_bytes());
    data.extend_from_slice(&123456u64.to_be_bytes());
    data.push(0);
    data.extend_from_slice(&10u32.to_be_bytes()); // desc_len = 10
    // the description supplies only 5 bytes though 10 are declared
    data.extend_from_slice(b"hello");

    let result = YPBankBinRecords::from_read(&data);
    assert!(result.is_err());
    let err = result.unwrap_err();
    assert!(matches!(err, ParseError::DescriptionBytes { need: 10, have: 5 }));
    assert!(msg(&err).contains("Not enough bytes for description: need 10, have 5"));
}

#[test]
fn test_write_bin_records() {
    let description = b"Record number 1000".to_vec();
    let desc_len = description.len() as u32;
    let test_bin_records = vec![BinRecord {
        tx_type: 0,
        status: 1,
        desc_len,
        tx_id: 1000000000000999,
        from_user_id: 0,
        to_user_id: 3314635390654657431,
        amount: 100000,
        timestamp: 1633096800000,
        description: b"Record number 1000".to_vec(),
    }];
    println!("Full record size {:#?}", 8 + BODY_FIXED_PART_SIZE + desc_len as usize);
    let mut buffer: Vec<u8> = Vec::new();
    write_record_to(&mut buffer, &test_bin_records[0]);

    let result = parse_bin_records(&buffer).unwrap();
    assert_eq!(result.len(), test_bin_records.len());

    let parsed_record = &result[0];
    let expected_record = &test_bin_records[0];

    assert_eq!(parsed_record.tx_id, expected_record.tx_id);
    assert_eq!(parsed_record.tx_type, expected_record.tx_type);
    assert_eq!(parsed_record.from_user_id, expected_record.from_user_id);
    assert_eq!(parsed_record.to_user_id, expected_record.to_user_id);
    assert_eq!(parsed_record.amount, expected_record.amount);
    assert_eq!(parsed_record.timestamp, expected_record.timestamp);
    assert_eq!(parsed_record.status, expected_record.status);
    assert_eq!(parsed_record.desc_len, expected_record.desc_len as u32);
    assert_eq!(parsed_record.description, expected_record.description);
}

#[test]
fn test_bin_empty_input() {
    let decoded = YPBankBinRecords::from_read(&[]).unwrap();
    assert_eq!(decoded.records.len(), 0);
}

#[test]
fn test_bin_round_trip_many_records() {
    // The binary framing is lossless for every description, quotes and
    // newlines included.
    let records = vec![
        TransactionRecord {
            tx_id: 1,
            tx_type: TxType::TRANSFER,
            from_user_id: 11,
            to_user_id: 12,
            amount: 5,
            timestamp: 1000,
            status: Status::SUCCESS,
            description: b"with \"quotes\" and, commas\nand newlines".to_vec(),
        },
        TransactionRecord {
            tx_id: u64::MAX,
            tx_type: TxType::WITHDRAWAL,
            from_user_id: u64::MAX,
            to_user_id: 0,
            amount: u64::MAX,
            timestamp: u64::MAX,
            status: Status::PENDING,
            description: Vec::new(),
        },
    ];
    let before = YPBankBinRecords::new(records);
    let mut buffer: Vec<u8> = Vec::new();
    before.write_to(&mut buffer).unwrap();
    let decoded = YPBankBinRecords::from_read(&buffer).unwrap();
    assert_eq!(before, decoded);
}

#[test]
fn test_bin_truncated_header() {
    let data = [0x59u8, 0x50, 0x42];
    let err = YPBankBinRecords::from_read(&data).unwrap_err();
    assert!(matches!(err, ParseError::TruncatedHeader { have: 3 }));
    assert!(msg(&err).contains("need 8 bytes, have 3"));
}

#[test]
fn test_bin_truncated_body() {
    let mut data = Vec::new();
    data.extend_from_slice(&MAGIC.to_be_bytes());
    data.extend_from_slice(&100u32.to_be_bytes()); // declares 100 body bytes
    data.extend_from_slice(b"only a few");
    let err = YPBankBinRecords::from_read(&data).unwrap_err();
    assert!(matches!(err, ParseError::TruncatedBody { need: 100, have: 10 }));
    assert!(msg(&err).contains("need 100, have 10"));
}

#[test]
fn test_bin_truncated_record() {
    let mut data = Vec::new();
    data.extend_from_slice(&MAGIC.to_be_bytes());
    data.extend_from_slice(&10u32.to_be_bytes()); // body shorter than the fixed part
    data.extend_from_slice(&[0u8; 10]);
    let err = YPBankBinRecords::from_read(&data).unwrap_err();
    assert!(matches!(err, ParseError::TruncatedRecord { have: 10 }));
    assert!(msg(&err).contains("need 46 bytes, have 10"));
}

#[test]
fn test_from_bin_length_mismatch() {
    let raw = BinRecord {
        tx_type: 0,
        status: 0,
        desc_len: 7,
        tx_id: 1,
        from_user_id: 2,
        to_user_id: 3,
        amount: 4,
        timestamp: 5,
        description: b"ab".to_vec(),
    };
    let err = TransactionRecord::from_bin(raw).unwrap_err();
    assert!(matches!(err, ParseError::DescriptionLengthMismatch { expected: 7, actual: 2 }));
    assert_eq!(msg(&err), "Description length mismatch: expected 7, actual 2");
}

#[test]
fn test_bin_extra_body_bytes_ignored() {
    // A frame whose declared body is larger than the fixed part plus the
    // declared description: the trailing bytes are ignored.
    let mut data = Vec::new();
    data.extend_from_slice(&MAGIC.to_be_bytes());
    let body_size = BODY_FIXED_PART_SIZE as u32 + 5 + 3;
    data.extend_from_slice(&body_size.to_be_bytes());
    data.extend_from_slice(&7u64.to_be_bytes());
    data.push(1);
    data.extend_from_slice(&8u64.to_be_bytes());
    data.extend_from_slice(&9u64.to_be_bytes());
    data.extend_from_slice(&10u64.to_be_bytes());
    data.extend_from_slice(&11u64.to_be_bytes());
    data.push(2);
    data.extend_from_slice(&5u32.to_be_bytes());
    data.extend_from_slice(b"helloxyz");
    let decoded = YPBankBinRecords::from_read(&data).unwrap();
    assert_eq!(decoded.records.len(), 1);
    assert_eq!(decoded.records[0].tx_id, 7);
    assert_eq!(decoded.records[0].tx_type, TxType::TRANSFER);
    assert_eq!(decoded.records[0].status, Status::PENDING);
    assert_eq!(decoded.records[0].description, b"hello".to_vec());
}

#[test]
fn test_encode_error_message() {
    let err = ypbank_codec::error::EncodeError::DescriptionTooLong { len: 5000000000 };
    let text = String::from_utf8(err.message()).unwrap();
    assert_eq!(text, "Description too long for binary framing: 5000000000 bytes");
}
