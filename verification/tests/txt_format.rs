use ypbank_codec::error::ParseError;
use ypbank_codec::txt_format::YPBankTxtRecords;
use ypbank_codec::{RecordParser, Status, TransactionRecord, TxType};

fn msg(e: &ParseError) -> String {
    String::from_utf8(e.message()).unwrap()
}

fn sample_record() -> TransactionRecord {
    TransactionRecord {
        tx_type: TxType::DEPOSIT,
        status: Status::FAILURE,
        tx_id: 1000000000000000,
        from_user_id: 0,
        to_user_id: 9223372036854775807,
        amount: 100,
        timestamp: 1633036860000,
        description: b"Record number 1".to_vec(),
    }
}

#[test]
fn test_read_write_txt_records() {
    let test_txt_records = YPBankTxtRecords { records: vec![sample_record()] };

    let mut buffer: Vec<u8> = Vec::new();
    test_txt_records.write_to(&mut buffer).unwrap();

    let buff_record = YPBankTxtRecords::from_read(&buffer).unwrap();
    assert_eq!(test_txt_records, buff_record);
}

#[test]
fn txt_format_test_read_write_txt_records() {
    let test_txt_records = YPBankTxtRecords { records: vec![sample_record()] };

    let mut buffer: Vec<u8> = Vec::new();
    test_txt_records.write_to(&mut buffer).unwrap();

    let buff_record = YPBankTxtRecords::from_read(&buffer).unwrap();
    assert_eq!(test_txt_records, buff_record);
}

#[test]
fn test_missing_colon() {
    let data = "\
# Record 1 DEPOSIT
TX_ID: 123
TX_TYPE DEPOSIT
FROM_USER_ID: 0
TO_USER_ID: 456
AMOUNT: 1000
TIMESTAMP: 1633036860
STATUS: SUCCESS
DESCRIPTION: \"test\"

";
    let result = YPBankTxtRecords::from_read(data.as_bytes());
    assert!(result.is_err());
    let err = result.unwrap_err();
    assert!(matches!(err, ParseError::MalformedLine { .. }));
    assert!(msg(&err).contains("Неправильный формат строки"));
}

#[test]
fn test_missing_key() {
    let data = "\
# Record 1 DEPOSIT
TX_ID: 123
FROM_USER_ID: 0
TO_USER_ID: 456
AMOUNT: 1000
TIMESTAMP: 1633036860
STATUS: SUCCESS
DESCRIPTION: \"test\"

";
    // TX_TYPE is absent
    let result = YPBankTxtRecords::from_read(data.as_bytes());
    assert!(result.is_err());
    let err = result.unwrap_err();
    assert!(matches!(err, ParseError::MissingKey { .. }));
    assert!(msg(&err).contains("Отсутствует ключ: TX_TYPE"));
}

#[test]
fn test_invalid_value_parse() {
    let data = "\
# Record 1 DEPOSIT
TX_ID: 123
TX_TYPE: 5
FROM_USER_ID: 0
TO_USER_ID: 456
AMOUNT: 1000
TIMESTAMP: 1633036860
STATUS: SUCCESS
DESCRIPTION: \"test\"

";
    let result = YPBankTxtRecords::from_read(data.as_bytes());
    assert!(result.is_err());
    let err = result.unwrap_err();
    assert!(matches!(err, ParseError::BadFieldValue { .. }));
    assert!(msg(&err).contains("Ошибка парсинга 'TX_TYPE'"));
}

#[test]
fn test_empty_file() {
    let data = "";
    let result = YPBankTxtRecords::from_read(data.as_bytes());
    assert!(result.is_ok());
    assert_eq!(result.unwrap().records.len(), 0);
}

#[test]
fn test_txt_exact_output() {
    let set = YPBankTxtRecords { records: vec![sample_record()] };
    let mut buffer: Vec<u8> = Vec::new();
    set.write_to(&mut buffer).unwrap();
    let expected = "\
# Record 1 DEPOSIT
TX_ID: 1000000000000000
TX_TYPE: DEPOSIT
FROM_USER_ID: 0
TO_USER_ID: 9223372036854775807
AMOUNT: 100
TIMESTAMP: 1633036860000
STATUS: FAILURE
DESCRIPTION: \"Record number 1\"

";
    assert_eq!(String::from_utf8(buffer).unwrap(), expected);
}

#[test]
fn test_txt_negative_comment_tag() {
    // The comment tag is the description's trailing token read as a
    // signed number, or zero where none parses.
    let mut rec = sample_record();
    rec.description = b"refund -5".to_vec();
    let set = YPBankTxtRecords { records: vec![rec] };
    let mut buffer: Vec<u8> = Vec::new();
    set.write_to(&mut buffer).unwrap();
    let text = String::from_utf8(buffer).unwrap();
    assert!(text.starts_with("# Record -5 DEPOSIT\n"));

    let mut rec = sample_record();
    rec.description = b"no trailing number".to_vec();
    let set = YPBankTxtRecords { records: vec![rec] };
    let mut buffer: Vec<u8> = Vec::new();
    set.write_to(&mut buffer).unwrap();
    let text = String::from_utf8(buffer).unwrap();
    assert!(text.starts_with("# Record 0 DEPOSIT\n"));
}

#[test]
fn test_txt_unterminated_block() {
    // Input that ends inside a block still closes it.
    let data = "\
TX_ID: 9
TX_TYPE: TRANSFER
FROM_USER_ID: 1
TO_USER_ID: 2
AMOUNT: 3
TIMESTAMP: 4
STATUS: PENDING
DESCRIPTION: \"tail\"";
    let decoded = YPBankTxtRecords::from_read(data.as_bytes()).unwrap();
    assert_eq!(decoded.records.len(), 1);
    assert_eq!(decoded.records[0].tx_id, 9);
    assert_eq!(decoded.records[0].tx_type, TxType::TRANSFER);
    assert_eq!(decoded.records[0].status, Status::PENDING);
    assert_eq!(decoded.records[0].description, b"tail".to_vec());
}

#[test]
fn test_txt_duplicate_key_last_wins() {
    let data = "\
TX_ID: 1
TX_ID: 2
TX_TYPE: DEPOSIT
FROM_USER_ID: 0
TO_USER_ID: 0
AMOUNT: 0
TIMESTAMP: 0
STATUS: SUCCESS
DESCRIPTION: \"d\"

";
    let decoded = YPBankTxtRecords::from_read(data.as_bytes()).unwrap();
    assert_eq!(decoded.records.len(), 1);
    assert_eq!(decoded.records[0].tx_id, 2);
}

#[test]
fn test_txt_unknown_keys_start_a_block() {
    // A block holding only unknown keys still closes, and fails for its
    // missing required keys, as pouring it into a key map would.
    let data = "FOO: bar\n\n";
    let err = YPBankTxtRecords::from_read(data.as_bytes()).unwrap_err();
    assert!(matches!(err, ParseError::MissingKey { .. }));
    assert!(msg(&err).contains("TX_ID"));
}

#[test]
fn test_txt_blank_lines_and_plus_sign() {
    let data = "\


# leading blanks above are tolerated
TX_ID: +123
TX_TYPE: WITHDRAWAL
FROM_USER_ID: 5
TO_USER_ID: 6
AMOUNT: 7
TIMESTAMP: 8
STATUS: SUCCESS
DESCRIPTION: \"quoted \"inside\" stripped\"


";
    let decoded = YPBankTxtRecords::from_read(data.as_bytes()).unwrap();
    assert_eq!(decoded.records.len(), 1);
    assert_eq!(decoded.records[0].tx_id, 123);
    // every double quote of the value is stripped
    assert_eq!(decoded.records[0].description, b"quoted inside stripped".to_vec());
}

#[test]
fn test_txt_u64_overflow_value() {
    let data = "\
TX_ID: 18446744073709551616
TX_TYPE: DEPOSIT
FROM_USER_ID: 0
TO_USER_ID: 0
AMOUNT: 0
TIMESTAMP: 0
STATUS: SUCCESS
DESCRIPTION: \"d\"

";
    let err = YPBankTxtRecords::from_read(data.as_bytes()).unwrap_err();
    assert!(matches!(err, ParseError::BadFieldValue { .. }));
    assert!(msg(&err).contains("TX_ID"));
}
