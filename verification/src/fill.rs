//! The order-filling procedure of the simulated broker that keeps its book
//! in a database: the order of its storage steps and what each outcome
//! leads to. The storage and market-data calls themselves are made by the
//! caller, which reports each outcome back as an event.

use vstd::prelude::*;
use vstd::string::*;
use crate::broker::{broker_error_text, BrokerError};
use crate::types::Side;

verus! {

/// Where a fill stands.
#[derive(Clone, Copy, Debug, PartialEq, Eq, Structural)]
pub enum FillStage {
    /// Read the latest price of the symbol.
    FetchPrice,
    /// Buy: take the order value out of cash.
    DeductCash,
    /// Buy: read the position the purchase is averaged into.
    LoadPosition,
    /// Write the bought or partly sold position.
    SavePosition,
    /// Sell: read the position being sold.
    LoadHolding,
    /// Sell: credit the order value to cash.
    AddCash,
    /// Sell: delete a position sold completely.
    ClosePosition,
    /// Write the trade row.
    RecordTrade,
    /// The order went through.
    Filled,
    /// The order was refused or a step failed.
    Rejected,
}

/// The outcome of the step a fill stands at.
#[derive(Debug)]
pub enum FillEvent {
    /// The step succeeded.
    Done,
    /// The storage or market-data call failed with this text.
    Failed(String),
    /// Reading the holding found no position.
    NoHolding,
    /// Reading the holding found a position: whether it holds at least the
    /// shares ordered, and whether the order sells all of them.
    Holding { enough: bool, sells_all: bool },
}

/// A fill in progress: the order's side, the stage reached, whether a sell
/// empties the position, and why the fill was rejected once it is.
#[derive(Debug)]
pub struct Fill {
    pub side: Side,
    pub stage: FillStage,
    pub sells_all: bool,
    pub error: Option<BrokerError>,
}

/// Whether a stage ends the fill.
pub open spec fn finished(stage: FillStage) -> bool {
    stage is Filled || stage is Rejected
}

/// At most how many events a fill at this stage still takes.
pub open spec fn steps_left(stage: FillStage) -> nat {
    match stage {
        FillStage::FetchPrice => 5,
        FillStage::DeductCash => 4,
        FillStage::LoadHolding => 4,
        FillStage::LoadPosition => 3,
        FillStage::AddCash => 3,
        FillStage::SavePosition => 2,
        FillStage::ClosePosition => 2,
        FillStage::RecordTrade => 1,
        FillStage::Filled => 0,
        FillStage::Rejected => 0,
    }
}

/// The stage after an event. A failed call rejects the fill; a buy takes
/// the cash first, then writes the position, then the trade; a sell checks
/// the holding, credits the cash, closes or rewrites the position, then
/// writes the trade.
pub open spec fn stage_after(side: Side, sells_all: bool, stage: FillStage, e: FillEvent) -> FillStage {
    if finished(stage) {
        stage
    } else if e is Failed {
        FillStage::Rejected
    } else {
        match stage {
            FillStage::FetchPrice => if side is Buy {
                FillStage::DeductCash
            } else {
                FillStage::LoadHolding
            },
            FillStage::DeductCash => FillStage::LoadPosition,
            FillStage::LoadPosition => FillStage::SavePosition,
            FillStage::SavePosition => FillStage::RecordTrade,
            FillStage::LoadHolding => match e {
                FillEvent::Holding { enough, sells_all: _ } => if enough {
                    FillStage::AddCash
                } else {
                    FillStage::Rejected
                },
                _ => FillStage::Rejected,
            },
            FillStage::AddCash => if sells_all {
                FillStage::ClosePosition
            } else {
                FillStage::SavePosition
            },
            FillStage::ClosePosition => FillStage::RecordTrade,
            _ => FillStage::Filled,
        }
    }
}

/// The text of the error a rejecting event leaves: a refused cash deduction
/// means insufficient funds, a missing or too small holding an invalid order,
/// any other failed call a failure carrying the call's text.
pub open spec fn rejection_text(stage: FillStage, e: FillEvent) -> Seq<char> {
    match e {
        FillEvent::Failed(msg) => if stage is DeductCash {
            "Insufficient funds"@
        } else {
            "Unknown failure: "@ + msg@
        },
        FillEvent::Holding { .. } => "Invalid order: Insufficient shares"@,
        _ => "Invalid order: No position"@,
    }
}

impl Fill {
    /// A fill of an order on this side, about to read the price.
    pub fn start(side: Side) -> (f: Fill)
        ensures
            f.side == side,
            f.stage == FillStage::FetchPrice,
            f.error is None,
    {
        Fill { side, stage: FillStage::FetchPrice, sells_all: false, error: None }
    }

    /// Advances the fill by the outcome of its current step.
    pub fn advance(self, e: FillEvent) -> (g: Fill)
        ensures
            g.side == self.side,
            g.stage == stage_after(self.side, self.sells_all, self.stage, e),
            self.stage is LoadHolding ==> (e matches FillEvent::Holding { enough: en, sells_all: sa }
                ==> (en ==> g.sells_all == sa)),
            !(self.stage is LoadHolding) ==> g.sells_all == self.sells_all,
            finished(self.stage) ==> g.error == self.error,
            !finished(self.stage) && g.stage is Rejected ==> (g.error matches Some(err)
                && broker_error_text(err) == rejection_text(self.stage, e)),
            !finished(self.stage) && !(self.stage is DeductCash) ==> (e matches FillEvent::Failed(msg)
                ==> g.error == Some(BrokerError::Fail(msg))),
            !(g.stage is Rejected) ==> g.error is None || finished(self.stage),
    {
        let Fill { side, stage, sells_all, error } = self;
        if stage == FillStage::Filled || stage == FillStage::Rejected {
            return Fill { side, stage, sells_all, error };
        }
        let e = match e {
            FillEvent::Failed(msg) => {
                let err = if stage == FillStage::DeductCash {
                    BrokerError::InsufficientFunds
                } else {
                    BrokerError::Fail(msg)
                };
                proof {
                    reveal_strlit("Insufficient funds");
                }
                return Fill { side, stage: FillStage::Rejected, sells_all, error: Some(err) };
            },
            other => other,
        };
        match stage {
            FillStage::FetchPrice => {
                let next = match side {
                    Side::Buy => FillStage::DeductCash,
                    Side::Sell => FillStage::LoadHolding,
                };
                Fill { side, stage: next, sells_all, error: None }
            },
            FillStage::DeductCash => Fill { side, stage: FillStage::LoadPosition, sells_all, error: None },
            FillStage::LoadPosition => Fill { side, stage: FillStage::SavePosition, sells_all, error: None },
            FillStage::SavePosition => Fill { side, stage: FillStage::RecordTrade, sells_all, error: None },
            FillStage::LoadHolding => match e {
                FillEvent::Holding { enough, sells_all: all } => {
                    if enough {
                        Fill { side, stage: FillStage::AddCash, sells_all: all, error: None }
                    } else {
                        let err = BrokerError::InvalidOrder(String::from_str("Insufficient shares"));
                        proof {
                            reveal_strlit("Invalid order: ");
                            reveal_strlit("Insufficient shares");
                            reveal_strlit("Invalid order: Insufficient shares");
                            assert("Invalid order: "@ + "Insufficient shares"@ =~= "Invalid order: Insufficient shares"@);
                        }
                        Fill { side, stage: FillStage::Rejected, sells_all, error: Some(err) }
                    }
                },
                _ => {
                    let err = BrokerError::InvalidOrder(String::from_str("No position"));
                    proof {
                        reveal_strlit("Invalid order: ");
                        reveal_strlit("No position");
                        reveal_strlit("Invalid order: No position");
                        assert("Invalid order: "@ + "No position"@ =~= "Invalid order: No position"@);
                    }
                    Fill { side, stage: FillStage::Rejected, sells_all, error: Some(err) }
                },
            },
            FillStage::AddCash => {
                let next = if sells_all {
                    FillStage::ClosePosition
                } else {
                    FillStage::SavePosition
                };
                Fill { side, stage: next, sells_all, error: None }
            },
            FillStage::ClosePosition => Fill { side, stage: FillStage::RecordTrade, sells_all, error: None },
            _ => Fill { side, stage: FillStage::Filled, sells_all, error: None },
        }
    }
}

/// Every event moves an unfinished fill closer to its end, so a fill ends
/// after at most five events.
pub proof fn law_fill_terminates(side: Side, sells_all: bool, stage: FillStage, e: FillEvent)
    requires
        !finished(stage),
    ensures
        steps_left(stage_after(side, sells_all, stage, e)) < steps_left(stage),
{
}

/// Cash is credited for a sale only right after the holding was found to
/// hold enough shares.
pub proof fn law_credit_needs_shares(side: Side, sells_all: bool, stage: FillStage, e: FillEvent)
    requires
        stage != FillStage::AddCash,
        stage_after(side, sells_all, stage, e) == FillStage::AddCash,
    ensures
        stage == FillStage::LoadHolding,
        e matches FillEvent::Holding { enough, .. } && enough,
{
}

/// A position is written for a buy only after the cash for it was taken,
/// and a trade is written only after the position was written or closed.
pub proof fn law_book_order(side: Side, sells_all: bool, stage: FillStage, e: FillEvent)
    ensures
        stage_after(side, sells_all, stage, e) == FillStage::LoadPosition && stage
            != FillStage::LoadPosition ==> stage == FillStage::DeductCash && !(e is Failed),
        stage_after(side, sells_all, stage, e) == FillStage::SavePosition && stage
            != FillStage::SavePosition ==> (stage == FillStage::LoadPosition || stage
            == FillStage::AddCash) && !(e is Failed),
        stage_after(side, sells_all, stage, e) == FillStage::RecordTrade && stage
            != FillStage::RecordTrade ==> (stage == FillStage::SavePosition || stage
            == FillStage::ClosePosition) && !(e is Failed),
        stage_after(side, sells_all, stage, e) == FillStage::Filled && stage != FillStage::Filled
            ==> stage == FillStage::RecordTrade,
        stage_after(side, sells_all, stage, e) == FillStage::DeductCash && stage
            != FillStage::DeductCash ==> side is Buy,
        stage_after(side, sells_all, stage, e) == FillStage::LoadHolding && stage
            != FillStage::LoadHolding ==> side is Sell,
{
}

/// The steps of a fill that goes through: a buy reads the price, takes
/// the cash, reads and then writes the position, and writes the trade; a
/// sell reads the price and the holding, and with enough shares credits the
/// cash; after the position is written or closed the trade is written and
/// the fill is done. A failed call at any step rejects the fill.
pub proof fn law_fill_steps(side: Side, sells_all: bool, e: FillEvent)
    ensures
        !(e is Failed) && side is Buy ==> stage_after(side, sells_all, FillStage::FetchPrice, e)
            == FillStage::DeductCash,
        !(e is Failed) && side is Sell ==> stage_after(side, sells_all, FillStage::FetchPrice, e)
            == FillStage::LoadHolding,
        !(e is Failed) ==> stage_after(side, sells_all, FillStage::DeductCash, e) == FillStage::LoadPosition,
        !(e is Failed) ==> stage_after(side, sells_all, FillStage::LoadPosition, e) == FillStage::SavePosition,
        (e matches FillEvent::Holding { enough, .. } && enough) ==> stage_after(
            side,
            sells_all,
            FillStage::LoadHolding,
            e,
        ) == FillStage::AddCash,
        (e matches FillEvent::Holding { enough, .. } && !enough) ==> stage_after(
            side,
            sells_all,
            FillStage::LoadHolding,
            e,
        ) == FillStage::Rejected,
        e is NoHolding ==> stage_after(side, sells_all, FillStage::LoadHolding, e) == FillStage::Rejected,
        !(e is Failed) ==> stage_after(side, sells_all, FillStage::SavePosition, e) == FillStage::RecordTrade,
        !(e is Failed) ==> stage_after(side, sells_all, FillStage::ClosePosition, e) == FillStage::RecordTrade,
        !(e is Failed) ==> stage_after(side, sells_all, FillStage::RecordTrade, e) == FillStage::Filled,
        e is Failed ==> stage_after(side, sells_all, FillStage::FetchPrice, e) == FillStage::Rejected
            && stage_after(side, sells_all, FillStage::DeductCash, e) == FillStage::Rejected
            && stage_after(side, sells_all, FillStage::LoadPosition, e) == FillStage::Rejected
            && stage_after(side, sells_all, FillStage::SavePosition, e) == FillStage::Rejected
            && stage_after(side, sells_all, FillStage::LoadHolding, e) == FillStage::Rejected
            && stage_after(side, sells_all, FillStage::AddCash, e) == FillStage::Rejected
            && stage_after(side, sells_all, FillStage::ClosePosition, e) == FillStage::Rejected
            && stage_after(side, sells_all, FillStage::RecordTrade, e) == FillStage::Rejected,
{
}

/// After the cash of a sale is credited, the position is deleted exactly
/// when the sale sells all its shares and rewritten otherwise: a partial
/// sale never deletes the position, and a sale of all shares never leaves
/// a rewritten (empty) position behind.
pub proof fn law_close_exactly_when_sold_out(side: Side, sells_all: bool, stage: FillStage, e: FillEvent)
    ensures
        !(e is Failed) && sells_all ==> stage_after(side, sells_all, FillStage::AddCash, e)
            == FillStage::ClosePosition,
        !(e is Failed) && !sells_all ==> stage_after(side, sells_all, FillStage::AddCash, e)
            == FillStage::SavePosition,
        !sells_all ==> stage_after(side, sells_all, stage, e) != FillStage::ClosePosition,
        sells_all && stage != FillStage::LoadPosition && stage != FillStage::SavePosition
            ==> stage_after(side, sells_all, stage, e) != FillStage::SavePosition,
{
}

/// Why a fill is rejected: a refused cash deduction is insufficient funds,
/// a holding with too few shares is an invalid order for insufficient
/// shares, no holding at all an invalid order for no position, and any
/// other failed call an unknown failure carrying the call's own text.
pub proof fn law_fill_rejections(stage: FillStage, msg: String, enough: bool, sells_all: bool)
    ensures
        rejection_text(FillStage::DeductCash, FillEvent::Failed(msg)) == "Insufficient funds"@,
        stage != FillStage::DeductCash ==> rejection_text(stage, FillEvent::Failed(msg))
            == "Unknown failure: "@ + msg@,
        rejection_text(FillStage::LoadHolding, FillEvent::Holding { enough, sells_all })
            == "Invalid order: Insufficient shares"@,
        rejection_text(FillStage::LoadHolding, FillEvent::NoHolding) == "Invalid order: No position"@,
{
}

} // verus!
