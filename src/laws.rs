use vstd::prelude::*;

use crate::error::ContractError;
use crate::execute::{
    accept_check, assign_check, confirm_check, fee_of, order_created, settled,
    settlement_transfers,
};
use crate::ids::order_key;
use crate::msg::OrderItem;
use crate::pricing::price_spec;
use crate::state::{Order, OrderStatus, State, Transfer, FEE_SCALE};

verus! {

/// Pricing reads only the restaurants and the menu of the restaurant priced: two states
/// that agree on those quote the same result for the same items.
pub proof fn law_price_depends_on_catalog_only(
    a: &State,
    b: &State,
    restaurant_id: Seq<char>,
    items: Seq<OrderItem>,
)
    requires
        a.restaurants.map() == b.restaurants.map(),
        a.menu(restaurant_id) == b.menu(restaurant_id),
    ensures
        price_spec(a, restaurant_id, items) == price_spec(b, restaurant_id, items),
{
}

/// The order that `create_order` places records the quoted total, its escrow holds that
/// same amount, and quoting the same items again afterwards gives the same total.
pub proof fn law_order_total_is_quote(
    old: &State,
    new: &State,
    customer: Seq<char>,
    restaurant_id: Seq<char>,
    items: Seq<OrderItem>,
    total: u128,
)
    requires
        old.wf(),
        price_spec(old, restaurant_id, items) == Ok::<u128, ContractError>(total),
        order_created(old, new, customer, restaurant_id, items, total),
    ensures
        ({
            let id = order_key((old.order_count + 1) as nat);
            &&& new.orders.map()[id].total == total
            &&& new.escrows.map()[id].amount == new.orders.map()[id].total
            &&& !new.escrows.map()[id].released
        }),
        price_spec(new, restaurant_id, items) == Ok::<u128, ContractError>(total),
{
    law_price_depends_on_catalog_only(old, new, restaurant_id, items);
}

/// A settlement pays out exactly what the escrow held, nothing lost to rounding: the fee
/// is the held amount times the fee fraction, rounded down, and the restaurant gets the
/// rest. Afterwards the escrow is released and empty.
pub proof fn law_settlement_conserves_escrow(
    old: &State,
    new: &State,
    id: Seq<char>,
    messages: Seq<Transfer>,
    sender: Seq<char>,
    balance: u128,
)
    requires
        old.wf(),
        confirm_check(old, sender, id, balance) is Ok,
        settled(old, new, id),
        settlement_transfers(old, id, messages),
    ensures
        ({
            let held = old.escrows.map()[id].amount;
            let fee = old.config->Some_0.fee_percentage;
            &&& messages[0].amount.amount + messages[1].amount.amount == held
            &&& messages[0].amount.amount == (held * fee) / (FEE_SCALE as int)
            &&& messages[0].amount.amount <= held
        }),
        new.escrows.map()[id].released,
        new.escrows.map()[id].amount == 0,
        new.orders.map()[id].status == OrderStatus::Completed,
{
}

/// A completed order is final: accepting it, assigning it a rider, or confirming its
/// delivery again is each refused with the guard that its status fails.
pub proof fn law_completed_order_is_final(
    s: &State,
    id: Seq<char>,
    sender: Seq<char>,
    rider_id: Seq<char>,
    balance: u128,
)
    requires
        s.orders.map().contains_key(id),
        s.orders.map()[id].status == OrderStatus::Completed,
    ensures
        accept_check(s, sender, id) == Err::<(), ContractError>(ContractError::OrderAlreadyProcessed),
        assign_check(s, id, rider_id) == Err::<(), ContractError>(ContractError::OrderNotAccepted),
        confirm_check(s, sender, id, balance) == Err::<(), ContractError>(
            ContractError::OrderNotInDelivery,
        ),
{
}

/// Only the owner of the ordering restaurant can accept an order; any other identity that
/// reaches that check is refused as unauthorized.
pub proof fn law_only_restaurant_owner_accepts(s: &State, sender: Seq<char>, id: Seq<char>)
    requires
        s.orders.map().contains_key(id),
        s.orders.map()[id].status == OrderStatus::Created,
        s.restaurants.map().contains_key(s.orders.map()[id].restaurant_id@),
    ensures
        accept_check(s, sender, id) is Ok <==> sender == s.restaurants.map()[s.orders.map()[
            id
        ].restaurant_id@].owner@,
        accept_check(s, sender, id) is Err ==> accept_check(s, sender, id) == Err::<
            (),
            ContractError,
        >(ContractError::Unauthorized),
{
}

/// Only the wallet of the rider recorded on the order can confirm its delivery; any other
/// identity is refused as unauthorized and nothing further is checked.
pub proof fn law_only_assigned_rider_confirms(
    s: &State,
    sender: Seq<char>,
    id: Seq<char>,
    balance: u128,
)
    requires
        s.orders.map().contains_key(id),
        s.orders.map()[id].status == OrderStatus::InDelivery,
        s.orders.map()[id].rider_id is Some,
        s.riders.map().contains_key(s.orders.map()[id].rider_id->Some_0@),
    ensures
        confirm_check(s, sender, id, balance) is Ok ==> sender == s.riders.map()[s.orders.map()[
            id
        ].rider_id->Some_0@].wallet@,
        sender != s.riders.map()[s.orders.map()[id].rider_id->Some_0@].wallet@ ==> confirm_check(
            s,
            sender,
            id,
            balance,
        ) == Err::<(), ContractError>(ContractError::Unauthorized),
{
}

/// How far along the delivery pipeline a status stands.
pub open spec fn stage(s: OrderStatus) -> int {
    match s {
        OrderStatus::Created => 0,
        OrderStatus::Accepted => 1,
        OrderStatus::InDelivery => 2,
        OrderStatus::Completed => 3,
        OrderStatus::Cancelled => 4,
    }
}

/// Each accepted transition moves its order exactly one stage forward: none skips a
/// stage and none goes back. `new` is the state that the transition leaves behind.
pub proof fn law_transitions_advance_one_stage(
    old: &State,
    new: &State,
    id: Seq<char>,
    sender: Seq<char>,
    rider_id: String,
    balance: u128,
)
    requires
        old.orders.map().contains_key(id),
    ensures
        accept_check(old, sender, id) is Ok && new.orders.map() == old.orders.map().insert(
            id,
            Order { status: OrderStatus::Accepted, ..old.orders.map()[id] },
        ) ==> stage(new.orders.map()[id].status) == stage(old.orders.map()[id].status) + 1,
        assign_check(old, id, rider_id@) is Ok && new.orders.map() == old.orders.map().insert(
            id,
            Order {
                status: OrderStatus::InDelivery,
                rider_id: Some(rider_id),
                ..old.orders.map()[id]
            },
        ) ==> stage(new.orders.map()[id].status) == stage(old.orders.map()[id].status) + 1,
        confirm_check(old, sender, id, balance) is Ok && settled(old, new, id) ==> stage(
            new.orders.map()[id].status,
        ) == stage(old.orders.map()[id].status) + 1,
{
}

} // verus!
