use vstd::prelude::*;

verus! {

/// OrderType defines the type of order
#[derive(Debug, Clone, PartialEq, Eq)]
pub enum OrderType {
    /// MarketOrder executes immediately at current market price
    Market,
    /// LimitOrder executes at specified price or better
    Limit,
    /// StopOrder triggers market/limit order when stop price is reached
    Stop,
}

/// OrderStatus defines the status of an order
#[derive(Debug, Clone, PartialEq, Eq)]
pub enum OrderStatus {
    /// PendingOrder indicates the order is not filled yet
    Pending,
    /// PartiallyFilledOrder indicates the order is partially filled
    PartiallyFilled,
    /// FilledOrder indicates the order is completely filled
    Filled,
    /// CancelledOrder indicates the order has been cancelled
    Cancelled,
}

/// TimeInForce defines when the order should be executed
#[derive(Debug, Clone, PartialEq, Eq)]
pub enum TimeInForce {
    /// GTC (Good-Till-Cancel) order remains active until explicitly cancelled
    GTC,
    /// IOC (Immediate-Or-Cancel) must be filled immediately or cancelled
    IOC,
    /// FOK (Fill-Or-Kill) must be filled completely immediately or cancelled
    FOK,
}

} // verus!
