use cubert::broker::{paper_fill, BrokerError, OrderIds, PaperFill};
use cubert::types::Side;

#[test]
fn paper_order_ids_count_up() {
    let mut ids = OrderIds::new();
    assert_eq!(ids.next_id(), "PAPER-000001");
    assert_eq!(ids.next_id(), "PAPER-000002");
    let third = ids.next_id();
    assert!(third.starts_with("PAPER-"));
    assert_eq!(third, "PAPER-000003");
}

#[test]
fn broker_error_texts() {
    assert_eq!(
        BrokerError::ConnectionFailed("timeout".to_string()).to_string(),
        "Connection failed: timeout"
    );
    assert_eq!(BrokerError::OrderRejected("x".to_string()).to_string(), "Order rejected: x");
    assert_eq!(BrokerError::InsufficientFunds.to_string(), "Insufficient funds");
    assert_eq!(
        BrokerError::InvalidOrder("No price for AAPL".to_string()).to_string(),
        "Invalid order: No price for AAPL"
    );
    assert_eq!(BrokerError::Fail("db".to_string()).to_string(), "Unknown failure: db");
}

#[test]
fn side_words() {
    assert_eq!(Side::Buy.as_str(), "buy");
    assert_eq!(Side::Sell.as_str(), "sell");
    assert_eq!(Side::Buy.opposite(), Side::Sell);
}

fn text(r: Result<PaperFill, BrokerError>) -> String {
    match r {
        Ok(_) => "ok".to_string(),
        Err(e) => e.to_string(),
    }
}

#[test]
fn paper_fill_checks_in_order() {
    assert_eq!(text(paper_fill("AAPL", true, false, false, false, false, false)), "Invalid order: No price for AAPL");
    assert_eq!(text(paper_fill("AAPL", true, true, false, true, true, true)), "Insufficient funds");
    assert!(matches!(paper_fill("AAPL", true, true, true, true, false, false), Ok(PaperFill::Buy { existing: true })));
    assert!(matches!(paper_fill("AAPL", true, true, true, false, false, false), Ok(PaperFill::Buy { existing: false })));
    assert_eq!(text(paper_fill("AAPL", false, true, false, false, true, true)), "Invalid order: No position for AAPL");
    assert_eq!(text(paper_fill("AAPL", false, true, true, true, false, true)), "Invalid order: Insufficient shares");
    assert!(matches!(paper_fill("AAPL", false, true, false, true, true, true), Ok(PaperFill::Sell { closes: true })));
    assert!(matches!(paper_fill("AAPL", false, true, false, true, true, false), Ok(PaperFill::Sell { closes: false })));
}
