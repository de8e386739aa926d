use cubert::risk::{DailyTrades, RiskRequest};

#[test]
fn daily_limit_blocks_entries_after_the_limit() {
    let mut trades = DailyTrades::new();
    assert!(trades.admit_entry(2, true));
    assert!(trades.admit_entry(2, true));
    assert!(!trades.admit_entry(2, true));
    assert_eq!(trades.count(), 2);
}

#[test]
fn rejected_entries_are_not_counted() {
    let mut trades = DailyTrades::new();
    assert!(!trades.admit_entry(10, false));
    assert_eq!(trades.count(), 0);
}

#[test]
fn reset_reopens_the_day_and_exits_always_count() {
    let mut trades = DailyTrades::new();
    assert!(trades.admit_entry(1, true));
    assert!(!trades.admit_entry(1, true));
    trades.record_exit();
    assert_eq!(trades.count(), 2);
    trades.reset();
    assert_eq!(trades.count(), 0);
    assert!(trades.admit_entry(1, true));
}

#[test]
fn budget_refuses_entries_after_the_limit_but_never_exits() {
    let mut t = DailyTrades::new();
    assert!(t.decide(1, RiskRequest::Entry { approved: true }));
    assert!(!t.decide(1, RiskRequest::Entry { approved: true }));
    assert_eq!(t.count(), 1);
    assert!(t.decide(1, RiskRequest::Exit { held: true }));
    assert_eq!(t.count(), 2);
    assert!(!t.decide(1, RiskRequest::Exit { held: false }));
    assert!(!t.decide(1, RiskRequest::Hold));
    assert!(!t.decide(1, RiskRequest::Entry { approved: true }));
    assert_eq!(t.count(), 2);
}
