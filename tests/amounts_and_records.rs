use transaction_manager::amount::parse_amount;
use transaction_manager::transactions::{
    Chargeback, Deposit, Dispute, RecordError, Resolve, Transaction, Withdrawal,
};

#[test]
fn parses_decimal_amounts_into_ten_thousandths() {
    assert_eq!(parse_amount(b"32.0"), Some(320_000));
    assert_eq!(parse_amount(b"32"), Some(320_000));
    assert_eq!(parse_amount(b"-42.0"), Some(-420_000));
    assert_eq!(parse_amount(b"+1.5"), Some(15_000));
    assert_eq!(parse_amount(b".5"), Some(5_000));
    assert_eq!(parse_amount(b"7."), Some(70_000));
    assert_eq!(parse_amount(b"0.0001"), Some(1));
    assert_eq!(parse_amount(b"000012.3400"), Some(123_400));
}

#[test]
fn parses_the_ends_of_the_range() {
    assert_eq!(parse_amount(b"922337203685477.5807"), Some(i64::MAX));
    assert_eq!(parse_amount(b"-922337203685477.5808"), Some(i64::MIN));
    assert_eq!(parse_amount(b"922337203685477.5808"), None);
    assert_eq!(parse_amount(b"99999999999999999999"), None);
}

#[test]
fn rejects_text_that_is_no_amount() {
    assert_eq!(parse_amount(b""), None);
    assert_eq!(parse_amount(b"-"), None);
    assert_eq!(parse_amount(b"."), None);
    assert_eq!(parse_amount(b"1.23456"), None);
    assert_eq!(parse_amount(b"1.2.3"), None);
    assert_eq!(parse_amount(b"12a"), None);
    assert_eq!(parse_amount(b" 1"), None);
    assert_eq!(parse_amount(b"--1"), None);
}

#[test]
fn records_name_each_kind() {
    assert_eq!(
        Transaction::from_record(b"deposit", 1, 1, Some(b"32.0")),
        Ok(Transaction::Deposit(Deposit::new(1, 1, 320_000)))
    );
    assert_eq!(
        Transaction::from_record(b"withdrawal", 2, 4, Some(b"200")),
        Ok(Transaction::Withdrawal(Withdrawal::new(2, 4, 2_000_000)))
    );
    assert_eq!(Transaction::from_record(b"dispute", 1, 1, None), Ok(Transaction::Dispute(Dispute::new(1, 1))));
    assert_eq!(Transaction::from_record(b"resolve", 1, 1, Some(b"")), Ok(Transaction::Resolve(Resolve::new(1, 1))));
    assert_eq!(
        Transaction::from_record(b"chargeback", 3, 9, None),
        Ok(Transaction::Chargeback(Chargeback::new(3, 9)))
    );
}

#[test]
fn records_without_a_needed_amount_or_with_a_bad_one_are_refused() {
    assert_eq!(Transaction::from_record(b"deposit", 1, 1, None), Err(RecordError::MissingAmount));
    assert_eq!(Transaction::from_record(b"withdrawal", 1, 1, Some(b"")), Err(RecordError::MissingAmount));
    assert_eq!(Transaction::from_record(b"deposit", 1, 1, Some(b"abc")), Err(RecordError::InvalidAmount));
    assert_eq!(Transaction::from_record(b"dispute", 1, 1, Some(b"x")), Err(RecordError::InvalidAmount));
    assert_eq!(Transaction::from_record(b"transfer", 1, 1, Some(b"1")), Err(RecordError::UnknownType));
    assert_eq!(Transaction::from_record(b"Deposit", 1, 1, Some(b"1")), Err(RecordError::UnknownType));
}

#[test]
fn negative_amounts_pass_the_record_and_are_refused_by_the_ledger() {
    let t = Transaction::from_record(b"deposit", 1, 2, Some(b"-42.0")).unwrap();
    assert_eq!(t, Transaction::Deposit(Deposit::new(1, 2, -420_000)));
}
