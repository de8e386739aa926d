//! Broker failures and the order identifiers of the simulated broker.

use vstd::prelude::*;
use vstd::string::*;
use crate::text::{push_zero_padded, zero_padded, lemma_zero_padded_injective};

verus! {

/// Why a broker could not serve a request.
#[derive(Debug)]
pub enum BrokerError {
    ConnectionFailed(String),
    OrderRejected(String),
    InsufficientFunds,
    InvalidOrder(String),
    Fail(String),
}

/// The human-readable text of a broker error.
pub open spec fn broker_error_text(e: BrokerError) -> Seq<char> {
    match e {
        BrokerError::ConnectionFailed(msg) => "Connection failed: "@ + msg@,
        BrokerError::OrderRejected(msg) => "Order rejected: "@ + msg@,
        BrokerError::InsufficientFunds => "Insufficient funds"@,
        BrokerError::InvalidOrder(msg) => "Invalid order: "@ + msg@,
        BrokerError::Fail(msg) => "Unknown failure: "@ + msg@,
    }
}

impl BrokerError {
    /// The human-readable text of the error.
    pub fn to_string(&self) -> (s: String)
        ensures
            s@ == broker_error_text(*self),
    {
        match self {
            BrokerError::ConnectionFailed(msg) => String::from_str("Connection failed: ").concat(msg.as_str()),
            BrokerError::OrderRejected(msg) => String::from_str("Order rejected: ").concat(msg.as_str()),
            BrokerError::InsufficientFunds => String::from_str("Insufficient funds"),
            BrokerError::InvalidOrder(msg) => String::from_str("Invalid order: ").concat(msg.as_str()),
            BrokerError::Fail(msg) => String::from_str("Unknown failure: ").concat(msg.as_str()),
        }
    }
}

impl BrokerError {
    /// A market order for a symbol the simulated broker has no price for.
    pub fn no_price_for(symbol: &str) -> (e: BrokerError)
        ensures
            e matches BrokerError::InvalidOrder(msg) && msg@ == "No price for "@ + symbol@,
    {
        BrokerError::InvalidOrder(String::from_str("No price for ").concat(symbol))
    }

    /// A sell of a symbol the account holds no position in.
    pub fn no_position_for(symbol: &str) -> (e: BrokerError)
        ensures
            e matches BrokerError::InvalidOrder(msg) && msg@ == "No position for "@ + symbol@,
    {
        BrokerError::InvalidOrder(String::from_str("No position for ").concat(symbol))
    }

    /// A sell of more shares than the position holds.
    pub fn insufficient_shares() -> (e: BrokerError)
        ensures
            e matches BrokerError::InvalidOrder(msg) && msg@ == "Insufficient shares"@,
    {
        BrokerError::InvalidOrder(String::from_str("Insufficient shares"))
    }
}

/// What the simulated broker does with an order it accepts.
#[derive(Clone, Copy, Debug, PartialEq, Eq, Structural)]
pub enum PaperFill {
    /// Deduct the cost from the cash, then add to the position held
    /// (`existing`) or open a new one.
    Buy { existing: bool },
    /// Credit the proceeds, reduce the position, and remove it when the sale
    /// leaves no shares (`closes`).
    Sell { closes: bool },
}

/// Decides an order of the simulated broker from what it found: whether a
/// price is known for it, whether the cash covers a buy, whether a position
/// in the symbol is held, whether it holds enough shares for a sell, and
/// whether the sale leaves no shares. The checks come in this order: price,
/// then cash for a buy, or position then shares for a sell.
pub fn paper_fill(
    symbol: &str,
    is_buy: bool,
    price_known: bool,
    affordable: bool,
    held: bool,
    shares_enough: bool,
    closes: bool,
) -> (r: Result<PaperFill, BrokerError>)
    ensures
        !price_known ==> (r matches Err(BrokerError::InvalidOrder(m)) && m@ == "No price for "@ + symbol@),
        price_known && is_buy && !affordable ==> r matches Err(BrokerError::InsufficientFunds),
        price_known && is_buy && affordable ==> r == Ok::<PaperFill, BrokerError>(PaperFill::Buy { existing: held }),
        price_known && !is_buy && !held ==> (r matches Err(BrokerError::InvalidOrder(m)) && m@
            == "No position for "@ + symbol@),
        price_known && !is_buy && held && !shares_enough ==> (r matches Err(BrokerError::InvalidOrder(m))
            && m@ == "Insufficient shares"@),
        price_known && !is_buy && held && shares_enough ==> r == Ok::<PaperFill, BrokerError>(
            PaperFill::Sell { closes },
        ),
{
    if !price_known {
        return Err(BrokerError::no_price_for(symbol));
    }
    if is_buy {
        if !affordable {
            return Err(BrokerError::InsufficientFunds);
        }
        Ok(PaperFill::Buy { existing: held })
    } else {
        if !held {
            return Err(BrokerError::no_position_for(symbol));
        }
        if !shares_enough {
            return Err(BrokerError::insufficient_shares());
        }
        Ok(PaperFill::Sell { closes })
    }
}

/// The identifier of the `n`-th order of the simulated broker:
/// `PAPER-` followed by `n` zero-padded to six digits.
pub open spec fn paper_order_id(n: nat) -> Seq<char> {
    "PAPER-"@ + zero_padded(n, 6)
}

/// Issues the identifiers of the simulated broker's orders, numbered from 1.
pub struct OrderIds {
    next: u64,
}

impl OrderIds {
    /// The number the next identifier carries.
    pub closed spec fn next_number(&self) -> nat {
        self.next as nat
    }

    /// A generator whose first identifier is `PAPER-000001`.
    pub fn new() -> (ids: Self)
        ensures
            ids.next_number() == 1,
    {
        OrderIds { next: 1 }
    }

    /// Whether every number has been used up.
    pub fn exhausted(&self) -> (b: bool)
        ensures
            b == (self.next_number() == u64::MAX),
    {
        self.next == u64::MAX
    }

    /// Issues the next identifier.
    pub fn next_id(&mut self) -> (id: String)
        requires
            old(self).next_number() < u64::MAX,
        ensures
            id@ == paper_order_id(old(self).next_number()),
            final(self).next_number() == old(self).next_number() + 1,
    {
        let mut id = String::from_str("PAPER-");
        push_zero_padded(&mut id, self.next, 6);
        self.next = self.next + 1;
        id
    }
}

/// Order identifiers never repeat: distinct numbers give distinct
/// identifiers, and a generator's numbers strictly increase.
pub proof fn law_paper_order_ids_distinct(a: nat, b: nat)
    requires
        a != b,
    ensures
        paper_order_id(a) != paper_order_id(b),
{
    reveal_strlit("PAPER-");
    if paper_order_id(a) == paper_order_id(b) {
        let p = "PAPER-"@;
        assert(zero_padded(a, 6) =~= paper_order_id(a).subrange(p.len() as int, paper_order_id(a).len() as int));
        assert(zero_padded(b, 6) =~= paper_order_id(b).subrange(p.len() as int, paper_order_id(b).len() as int));
        lemma_zero_padded_injective(a, b, 6);
    }
}

} // verus!
