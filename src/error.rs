use vstd::prelude::*;

verus! {

/// Why an operation was refused. A refused operation changes nothing.
#[derive(Debug, Clone, PartialEq, Eq, Structural)]
pub enum ContractError {
    Unauthorized,
    OrderNotFound,
    InsufficientFunds,
    UserNotRegistered,
    ItemNotAvailable,
    IncorrectPayment,
    OrderAlreadyProcessed,
    OrderNotAccepted,
    OrderInDelivery,
    OrderNotInDelivery,
    NoRiderAssigned,
    OrderNotCompleted,
    FundsAlreadyReleased,
    InvalidFeePercentage {},
    InvalidOrderAmount {},
    Overflow {},
    InsufficientEscrowAmount {},
    EscrowBalanceNotLoaded {},
    DeliveryNotConfirmed {},
    InsufficientEscrowBalance {},
    EmptyOrder {},
    ItemNotFound {},
    MenuItemNotFound,
    RestaurantNotFound,
    RiderNotFound,
    EscrowNotFound,
    NotInitialized,
    LastOwner,
}

pub type ContractResult<T> = Result<T, ContractError>;

} // verus!
