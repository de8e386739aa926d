//! Trading vocabulary shared by the broker, risk and storage layers.

use vstd::prelude::*;

verus! {

/// Direction of an order.
#[derive(Clone, Copy, Debug, PartialEq, Eq, Structural, Hash)]
pub enum Side {
    Buy,
    Sell,
}

/// The lower-case word a side is recorded under in trade and signal rows.
pub open spec fn side_word(side: Side) -> Seq<char> {
    match side {
        Side::Buy => "buy"@,
        Side::Sell => "sell"@,
    }
}

impl Side {
    /// `"buy"` or `"sell"`.
    pub fn as_str(&self) -> (s: &'static str)
        ensures
            s@ == side_word(*self),
    {
        match self {
            Side::Buy => "buy",
            Side::Sell => "sell",
        }
    }

    /// The other side.
    pub fn opposite(&self) -> (s: Side)
        ensures
            s != *self,
    {
        match self {
            Side::Buy => Side::Sell,
            Side::Sell => Side::Buy,
        }
    }
}

} // verus!
