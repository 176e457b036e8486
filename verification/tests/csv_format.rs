use ypbank_codec::csv_format::YPBankCsvRecords;
use ypbank_codec::error::ParseError;
use ypbank_codec::{RecordParser, Status, TransactionRecord, TxType};

fn msg(e: &ParseError) -> String {
    String::from_utf8(e.message()).unwrap()
}

fn sample_record() -> TransactionRecord {
    TransactionRecord {
        tx_type: TxType::DEPOSIT,
        status: Status::FAILURE,
        tx_id: 1000000000000000,
        from_user_id: 0,
        to_user_id: 9223372036854775807,
        amount: 100,
        timestamp: 1633036860000,
        description: b"Record number 1".to_vec(),
    }
}

#[test]
fn test_read_write_csv_records() {
    let test_csv_records = YPBankCsvRecords { records: vec![sample_record()] };

    let mut buffer: Vec<u8> = Vec::new();
    test_csv_records.write_to(&mut buffer).unwrap();

    let buff_record = YPBankCsvRecords::from_read(&buffer).unwrap();
    assert_eq!(test_csv_records, buff_record);
}

#[test]
fn csv_format_test_read_write_csv_records() {
    let test_csv_records = YPBankCsvRecords { records: vec![sample_record()] };

    let mut buffer: Vec<u8> = Vec::new();
    test_csv_records.write_to(&mut buffer).unwrap();

    let buff_record = YPBankCsvRecords::from_read(&buffer).unwrap();
    assert_eq!(test_csv_records, buff_record);
}

#[test]
fn test_invalid_tx_type_value() {
    let data = "\
TX_ID,TX_TYPE,FROM_USER_ID,TO_USER_ID,AMOUNT,TIMESTAMP,STATUS,DESCRIPTION
1000000000000000,deposit,0,9223372036854775807,100,1633036860,SUCCESS,\"Record number 1\"
";
    // TX_TYPE = "deposit" (lower case) is no enumeration literal
    let result = YPBankCsvRecords::from_read(data.as_bytes());
    assert!(result.is_err());
    let err = result.unwrap_err();
    assert!(msg(&err).contains("TX_TYPE") || msg(&err).contains("deposit"));
}

#[test]
fn test_missing_field() {
    let data = "\
TX_ID,TX_TYPE,FROM_USER_ID,TO_USER_ID,AMOUNT,TIMESTAMP,STATUS,DESCRIPTION
1000000000000000,DEPOSIT,0,9223372036854775807,100,1633036860,SUCCESS
";
    // the DESCRIPTION field is missing
    let result = YPBankCsvRecords::from_read(data.as_bytes());
    assert!(result.is_err());
    let err = result.unwrap_err();
    assert!(matches!(err, ParseError::BadRow { found: 7 }));
}

#[test]
fn test_invalid_number_format() {
    let data = "\
TX_ID,TX_TYPE,FROM_USER_ID,TO_USER_ID,AMOUNT,TIMESTAMP,STATUS,DESCRIPTION
not_a_number,DEPOSIT,0,9223372036854775807,100,1633036860,SUCCESS,\"test\"
";
    // TX_ID is not a number
    let result = YPBankCsvRecords::from_read(data.as_bytes());
    assert!(result.is_err());
    let err = result.unwrap_err();
    assert!(matches!(err, ParseError::BadFieldValue { .. }));
    assert!(msg(&err).contains("TX_ID"));
}

#[test]
fn test_csv_empty_input() {
    let decoded = YPBankCsvRecords::from_read(&[]).unwrap();
    assert_eq!(decoded.records.len(), 0);
}

#[test]
fn test_csv_header_only() {
    let data = "TX_ID,TX_TYPE,FROM_USER_ID,TO_USER_ID,AMOUNT,TIMESTAMP,STATUS,DESCRIPTION\n";
    let decoded = YPBankCsvRecords::from_read(data.as_bytes()).unwrap();
    assert_eq!(decoded.records.len(), 0);
}

#[test]
fn test_csv_exact_output() {
    let set = YPBankCsvRecords { records: vec![sample_record()] };
    let mut buffer: Vec<u8> = Vec::new();
    set.write_to(&mut buffer).unwrap();
    let expected = "\
TX_ID,TX_TYPE,FROM_USER_ID,TO_USER_ID,AMOUNT,TIMESTAMP,STATUS,DESCRIPTION
1000000000000000,DEPOSIT,0,9223372036854775807,100,1633036860000,FAILURE,\"Record number 1\"
";
    assert_eq!(String::from_utf8(buffer).unwrap(), expected);
}

#[test]
fn test_csv_comma_in_description() {
    // A comma inside the quoted description survives the round trip.
    let mut rec = sample_record();
    rec.description = b"one, two, three".to_vec();
    let set = YPBankCsvRecords { records: vec![rec] };
    let mut buffer: Vec<u8> = Vec::new();
    set.write_to(&mut buffer).unwrap();
    let decoded = YPBankCsvRecords::from_read(&buffer).unwrap();
    assert_eq!(set, decoded);
}

#[test]
fn test_csv_crlf_rows() {
    let data = "\
TX_ID,TX_TYPE,FROM_USER_ID,TO_USER_ID,AMOUNT,TIMESTAMP,STATUS,DESCRIPTION\r
1,DEPOSIT,2,3,4,5,SUCCESS,\"x\"\r
";
    let decoded = YPBankCsvRecords::from_read(data.as_bytes()).unwrap();
    assert_eq!(decoded.records.len(), 1);
    assert_eq!(decoded.records[0].tx_id, 1);
    assert_eq!(decoded.records[0].description, b"x".to_vec());
}

#[test]
fn test_csv_unterminated_quote() {
    let data = "\
TX_ID,TX_TYPE,FROM_USER_ID,TO_USER_ID,AMOUNT,TIMESTAMP,STATUS,DESCRIPTION
1,DEPOSIT,2,3,4,5,SUCCESS,\"oops
";
    let err = YPBankCsvRecords::from_read(data.as_bytes()).unwrap_err();
    assert!(matches!(err, ParseError::BadQuoting { .. }));
    assert!(msg(&err).contains("Malformed quoting"));
}

#[test]
fn test_csv_invalid_status_literal() {
    let data = "\
TX_ID,TX_TYPE,FROM_USER_ID,TO_USER_ID,AMOUNT,TIMESTAMP,STATUS,DESCRIPTION
1,DEPOSIT,2,3,4,5,DONE,\"x\"
";
    let err = YPBankCsvRecords::from_read(data.as_bytes()).unwrap_err();
    assert!(matches!(err, ParseError::BadFieldValue { .. }));
    assert!(msg(&err).contains("STATUS"));
    assert!(msg(&err).contains("DONE"));
}
