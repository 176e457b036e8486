use ypbank_codec::comparer::{compare_records, DiffEntry};
use ypbank_codec::{Status, TransactionRecord, TxType};

fn record(tx_id: u64, amount: u64) -> TransactionRecord {
    TransactionRecord {
        tx_id,
        tx_type: TxType::DEPOSIT,
        from_user_id: 1,
        to_user_id: 2,
        amount,
        timestamp: 3,
        status: Status::SUCCESS,
        description: b"d".to_vec(),
    }
}

#[test]
fn test_comparer_example() {
    let first = vec![record(1, 100)];
    let second = vec![record(1, 200), record(2, 50)];
    let diffs = compare_records(&first, &second);
    assert_eq!(diffs.len(), 2);
    assert!(diffs.contains(&DiffEntry::Changed { tx_id: 1, left: 0, right: 0 }));
    assert!(diffs.contains(&DiffEntry::OnlyInSecond { tx_id: 2, index: 1 }));
}

#[test]
fn test_comparer_identical() {
    let first = vec![record(1, 100), record(2, 50)];
    let second = vec![record(2, 50), record(1, 100)];
    // order is not significant: the comparison keys by tx_id
    let diffs = compare_records(&first, &second);
    assert!(diffs.is_empty());
}

#[test]
fn test_comparer_only_in_first() {
    let first = vec![record(7, 1)];
    let second = Vec::new();
    let diffs = compare_records(&first, &second);
    assert_eq!(diffs, vec![DiffEntry::OnlyInFirst { tx_id: 7, index: 0 }]);
}

#[test]
fn test_comparer_last_record_wins() {
    // Two records under one key: the later one stands for the key.
    let first = vec![record(1, 100), record(1, 300)];
    let second = vec![record(1, 300)];
    let diffs = compare_records(&first, &second);
    assert!(diffs.is_empty());

    let third = vec![record(1, 100)];
    let diffs = compare_records(&first, &third);
    assert_eq!(diffs, vec![DiffEntry::Changed { tx_id: 1, left: 1, right: 0 }]);
}

#[test]
fn test_comparer_description_difference() {
    let mut changed = record(5, 10);
    changed.description = b"other".to_vec();
    let diffs = compare_records(&vec![record(5, 10)], &vec![changed]);
    assert_eq!(diffs, vec![DiffEntry::Changed { tx_id: 5, left: 0, right: 0 }]);
}
