use vstd::arithmetic::div_mod::{lemma_div_by_multiple, lemma_div_is_ordered};
use vstd::prelude::*;

use crate::error::ContractError;
use crate::ids::{
    decimal, lemma_order_key_injective, order_id_for, order_key, restaurant_id_for, restaurant_key,
    rider_id_for, rider_key,
};
use crate::msg::OrderItem;
use crate::pricing::{price_order, price_spec};
use crate::state::{
    attrs_view, owner_ids, records, Attribute, Coin, Escrow, MenuItem, Order, OrderStatus, PlatformConfig, Response,
    Restaurant, Rider, State, Transfer, FEE_SCALE,
};
use crate::table::{key_eq, Table};

verus! {

pub open spec fn native_denom() -> Seq<char> {
    seq!['u', 'x', 'i', 'o', 'n']
}

fn native_denom_string() -> (r: String)
    ensures
        r@ == native_denom(),
{
    proof {
        reveal_strlit("uxion");
    }
    let r = "uxion".to_owned();
    assert(r@ =~= native_denom());
    r
}

fn is_native_denom(denom: &str) -> (r: bool)
    ensures
        r == (denom@ == native_denom()),
{
    proof {
        reveal_strlit("uxion");
    }
    assert("uxion"@ =~= native_denom());
    key_eq(denom, "uxion")
}

/// The platform's share of `amount` at fee fraction `fee` (in parts of `FEE_SCALE`),
/// rounded down.
pub open spec fn fee_of(amount: u128, fee: u128) -> int {
    (amount * fee) / (FEE_SCALE as int)
}

/// The payment attached to an order is exactly one coin of the native denomination,
/// of exactly the order's total.
pub open spec fn payment_matches(funds: Seq<Coin>, total: u128) -> bool {
    &&& funds.len() == 1
    &&& funds[0].denom@ == native_denom()
    &&& funds[0].amount == total
}

/// Relies on cosmwasm_std's `Uint128 * Decimal`, which multiplies by the decimal's
/// atomics in 256 bits and divides by 10^18, rounding down; it panics only when the
/// result exceeds `u128`, which a fee of at most one whole rules out.
#[verifier::external_body]
fn fee_share(amount: u128, fee: u128) -> (r: u128)
    requires
        fee <= FEE_SCALE,
    ensures
        r == fee_of(amount, fee),
{
    (cosmwasm_std::Uint128::new(amount) * cosmwasm_std::Decimal::raw(fee)).u128()
}

proof fn lemma_fee_at_most_amount(amount: u128, fee: u128)
    requires
        fee <= FEE_SCALE,
    ensures
        0 <= fee_of(amount, fee) <= amount,
{
    let a = amount as int;
    let f = fee as int;
    let s = FEE_SCALE as int;
    assert(0 <= a * f <= a * s) by (nonlinear_arith)
        requires
            0 <= f <= s,
            0 <= a,
    ;
    lemma_div_is_ordered(a * f, a * s, s);
    lemma_div_by_multiple(a, s);
    lemma_div_is_ordered(0, a * f, s);
}

fn attr(key: &str, value: String) -> (r: Attribute)
    ensures
        r.key@ == key@,
        r.value@ == value@,
{
    Attribute { key: key.to_owned(), value }
}

fn attr_str(key: &str, value: &str) -> (r: Attribute)
    ensures
        r.key@ == key@,
        r.value@ == value@,
{
    Attribute { key: key.to_owned(), value: value.to_owned() }
}

fn action_response(action: &str) -> (r: Response)
    ensures
        r.messages@.len() == 0,
        r.attributes@.len() == 1,
        r.attributes@[0].key@ == "action"@,
        r.attributes@[0].value@ == action@,
        records(r, seq![("action"@, action@)]),
{
    let mut attributes: Vec<Attribute> = Vec::new();
    attributes.push(attr_str("action", action));
    let r = Response { messages: Vec::new(), attributes };
    assert(attrs_view(r.attributes@) =~= seq![("action"@, action@)]);
    r
}

/// Why `confirm_delivery` by `sender` on `id` is refused, checked in this order; `Ok`
/// when it goes through.
pub open spec fn confirm_check(s: &State, sender: Seq<char>, id: Seq<char>, balance: u128) -> Result<
    (),
    ContractError,
> {
    let o = s.orders.map()[id];
    let e = s.escrows.map()[id];
    if !s.orders.map().contains_key(id) {
        Err(ContractError::OrderNotFound)
    } else if o.status != OrderStatus::InDelivery {
        Err(ContractError::OrderNotInDelivery)
    } else if o.rider_id is None {
        Err(ContractError::NoRiderAssigned)
    } else if !s.riders.map().contains_key(o.rider_id->Some_0@) {
        Err(ContractError::RiderNotFound)
    } else if sender != s.riders.map()[o.rider_id->Some_0@].wallet@ {
        Err(ContractError::Unauthorized)
    } else if !s.escrows.map().contains_key(id) {
        Err(ContractError::EscrowNotFound)
    } else if e.released {
        Err(ContractError::FundsAlreadyReleased)
    } else if balance < e.amount {
        Err(ContractError::InsufficientEscrowBalance {  })
    } else if s.config is None {
        Err(ContractError::NotInitialized)
    } else if !s.restaurants.map().contains_key(o.restaurant_id@) {
        Err(ContractError::RestaurantNotFound)
    } else {
        Ok(())
    }
}

/// `new` is `old` with order `id` completed and its escrow paid out and closed.
pub open spec fn settled(old: &State, new: &State, id: Seq<char>) -> bool {
    let o = old.orders.map()[id];
    &&& new.orders.map() == old.orders.map().insert(id, Order { status: OrderStatus::Completed, ..o })
    &&& new.escrows.map().dom() == old.escrows.map().dom()
    &&& new.escrows.map() == old.escrows.map().insert(id, new.escrows.map()[id])
    &&& new.escrows.map()[id].order_id@ == id
    &&& new.escrows.map()[id].amount == 0
    &&& new.escrows.map()[id].released
    &&& new.config == old.config
    &&& new.restaurants == old.restaurants
    &&& new.menu_items == old.menu_items
    &&& new.riders == old.riders
    &&& new.order_count == old.order_count
}

/// The two payments of a settlement: the fee to the platform, the rest to the restaurant.
pub open spec fn settlement_transfers(old: &State, id: Seq<char>, messages: Seq<Transfer>) -> bool {
    let amount = old.escrows.map()[id].amount;
    let c = old.config->Some_0;
    let fee = fee_of(amount, c.fee_percentage);
    let payout = old.restaurants.map()[old.orders.map()[id].restaurant_id@].restaurant_address;
    &&& messages.len() == 2
    &&& messages[0].to_address@ == c.fee_address@
    &&& messages[0].amount.denom@ == native_denom()
    &&& messages[0].amount.amount == fee
    &&& messages[1].to_address@ == payout@
    &&& messages[1].amount.denom@ == native_denom()
    &&& messages[1].amount.amount == amount - fee
}

/// The assigned rider's wallet confirms delivery of order `order_id`: the escrow is split
/// into the platform's fee and the restaurant's payout, and the order is completed.
/// `contract_balance` is what the engine holds of the native denomination.
pub fn confirm_delivery(state: &mut State, sender: &str, order_id: &str, contract_balance: u128) -> (r:
    Result<Response, ContractError>)
    requires
        old(state).wf(),
    ensures
        final(state).wf(),
        match confirm_check(&*old(state), sender@, order_id@, contract_balance) {
            Err(e) => r == Err::<Response, ContractError>(e) && *final(state) == *old(state),
            Ok(_) => r matches Ok(resp) && settled(&*old(state), &*final(state), order_id@)
                && settlement_transfers(&*old(state), order_id@, resp.messages@) && attrs_view(
                resp.attributes@,
            ) == seq![
                ("action"@, "confirm_delivery"@),
                ("order_id"@, order_id@),
                ("status"@, "Completed"@),
            ],
        },
{
    let order = match state.orders.get(order_id) {
        Some(o) => o,
        None => return Err(ContractError::OrderNotFound),
    };
    if order.status != OrderStatus::InDelivery {
        return Err(ContractError::OrderNotInDelivery);
    }
    let rider_id = match &order.rider_id {
        Some(r) => r,
        None => return Err(ContractError::NoRiderAssigned),
    };
    let rider = match state.riders.get(rider_id.as_str()) {
        Some(r) => r,
        None => return Err(ContractError::RiderNotFound),
    };
    if !key_eq(sender, rider.wallet.as_str()) {
        return Err(ContractError::Unauthorized);
    }
    let escrow = match state.escrows.get(order_id) {
        Some(e) => e,
        None => return Err(ContractError::EscrowNotFound),
    };
    if escrow.released {
        return Err(ContractError::FundsAlreadyReleased);
    }
    if contract_balance < escrow.amount {
        return Err(ContractError::InsufficientEscrowBalance {  });
    }
    let config = match &state.config {
        Some(c) => c,
        None => return Err(ContractError::NotInitialized),
    };
    let restaurant = match state.restaurants.get(order.restaurant_id.as_str()) {
        Some(r) => r,
        None => return Err(ContractError::RestaurantNotFound),
    };
    let amount = escrow.amount;
    let fee_amount = fee_share(amount, config.fee_percentage);
    proof {
        lemma_fee_at_most_amount(amount, config.fee_percentage);
    }
    let remaining_amount = amount - fee_amount;
    let fee_msg = Transfer {
        to_address: config.fee_address.clone(),
        amount: Coin { denom: native_denom_string(), amount: fee_amount },
    };
    let payment_msg = Transfer {
        to_address: restaurant.restaurant_address.clone(),
        amount: Coin { denom: native_denom_string(), amount: remaining_amount },
    };
    let ghost before = *state;
    let mut completed = state.orders.remove(order_id).unwrap();
    completed.status = OrderStatus::Completed;
    state.orders.insert(order_id.to_owned(), completed);
    state.escrows.insert(
        order_id.to_owned(),
        Escrow { order_id: order_id.to_owned(), amount: 0, released: true },
    );
    proof {
        assert(state.orders.map() =~= before.orders.map().insert(
            order_id@,
            Order { status: OrderStatus::Completed, ..before.orders.map()[order_id@] },
        ));
        assert(state.escrows.map().dom() =~= before.escrows.map().dom());
    }
    let mut messages: Vec<Transfer> = Vec::new();
    messages.push(fee_msg);
    messages.push(payment_msg);
    let mut resp = action_response("confirm_delivery");
    resp.attributes.push(attr_str("order_id", order_id));
    resp.attributes.push(attr_str("status", "Completed"));
    assert(attrs_view(resp.attributes@) =~= seq![
        ("action"@, "confirm_delivery"@),
        ("order_id"@, order_id@),
        ("status"@, "Completed"@),
    ]);
    resp.messages = messages;
    Ok(resp)
}

/// `new` is `old` with order number `old.order_count + 1` placed by `customer` and its
/// escrow opened at the order's total.
pub open spec fn order_created(
    old: &State,
    new: &State,
    customer: Seq<char>,
    restaurant_id: Seq<char>,
    items: Seq<OrderItem>,
    total: u128,
) -> bool {
    let id = order_key((old.order_count + 1) as nat);
    let o = new.orders.map()[id];
    let e = new.escrows.map()[id];
    &&& new.order_count == old.order_count + 1
    &&& !old.orders.map().contains_key(id)
    &&& new.orders.map() == old.orders.map().insert(id, o)
    &&& o.id@ == id
    &&& o.customer@ == customer
    &&& o.restaurant_id@ == restaurant_id
    &&& o.items@ == items
    &&& o.total == total
    &&& o.status == OrderStatus::Created
    &&& o.rider_id is None
    &&& new.escrows.map() == old.escrows.map().insert(id, e)
    &&& e.order_id@ == id
    &&& e.amount == total
    &&& !e.released
    &&& new.config == old.config
    &&& new.restaurants == old.restaurants
    &&& new.menu_items == old.menu_items
    &&& new.riders == old.riders
}

/// `sender` orders `items` from restaurant `restaurant_id`, paying `funds`. The payment
/// must be exactly the order's price; it is then held in escrow under the new order's id.
pub fn create_order(
    state: &mut State,
    sender: &str,
    funds: &Vec<Coin>,
    restaurant_id: String,
    items: Vec<OrderItem>,
) -> (r: Result<Response, ContractError>)
    requires
        old(state).wf(),
    ensures
        final(state).wf(),
        match price_spec(&*old(state), restaurant_id@, items@) {
            Err(e) => r == Err::<Response, ContractError>(e) && *final(state) == *old(state),
            Ok(total) => if !payment_matches(funds@, total) {
                r == Err::<Response, ContractError>(ContractError::IncorrectPayment)
                    && *final(state) == *old(state)
            } else if old(state).order_count == u64::MAX {
                r == Err::<Response, ContractError>(ContractError::Overflow {  }) && *final(state)
                    == *old(state)
            } else {
                r matches Ok(resp) && order_created(
                    &*old(state),
                    &*final(state),
                    sender@,
                    restaurant_id@,
                    items@,
                    total,
                ) && records(resp, seq![
                    ("action"@, "create_order"@),
                    ("order_id"@, order_key((old(state).order_count + 1) as nat)),
                    ("restaurant_id"@, restaurant_id@),
                    ("total"@, decimal(total as nat)),
                ])
            },
        },
{
    let total = match price_order(state, restaurant_id.as_str(), &items) {
        Ok(t) => t,
        Err(e) => return Err(e),
    };
    if funds.len() != 1 || !is_native_denom(funds[0].denom.as_str()) || funds[0].amount
        != total {
        return Err(ContractError::IncorrectPayment);
    }
    if state.order_count == u64::MAX {
        return Err(ContractError::Overflow {  });
    }
    let ghost before = *state;
    let ghost restaurant_id_view = restaurant_id@;
    let number = state.order_count + 1;
    let order_id = order_id_for(number);
    proof {
        let id = order_key(number as nat);
        if before.orders.map().contains_key(id) {
            let n = choose|n: nat| 1 <= n <= before.order_count && id == order_key(n);
            lemma_order_key_injective(n, number as nat);
        }
    }
    let mut attributes: Vec<Attribute> = Vec::new();
    attributes.push(attr_str("action", "create_order"));
    attributes.push(attr("order_id", order_id.clone()));
    attributes.push(attr("restaurant_id", restaurant_id.clone()));
    attributes.push(attr("total", crate::ids::decimal_string(total)));
    let order = Order {
        id: order_id.clone(),
        customer: sender.to_owned(),
        restaurant_id,
        items,
        total,
        status: OrderStatus::Created,
        rider_id: None,
    };
    state.orders.insert(order_id.clone(), order);
    state.escrows.insert(
        order_id.clone(),
        Escrow { order_id: order_id.clone(), amount: total, released: false },
    );
    state.order_count = number;
    proof {
        assert forall|k: Seq<char>| #[trigger]
            state.orders.map().contains_key(k) implies exists|n: nat|
                1 <= n <= state.order_count && k == order_key(n) by {
            if k == order_key(number as nat) {
                assert(1 <= number <= state.order_count);
            } else {
                assert(before.orders.map().contains_key(k));
                let n = choose|n: nat| 1 <= n <= before.order_count && k == order_key(n);
                assert(1 <= n <= state.order_count);
            }
        }
    }
    proof {
        assert(attrs_view(attributes@) =~= seq![
            ("action"@, "create_order"@),
            ("order_id"@, order_key(number as nat)),
            ("restaurant_id"@, restaurant_id_view),
            ("total"@, decimal(total as nat)),
        ]);
    }
    Ok(Response { messages: Vec::new(), attributes })
}

/// Nothing but the orders table differs between `old` and `new`.
pub open spec fn only_orders_changed(old: &State, new: &State) -> bool {
    &&& new.config == old.config
    &&& new.restaurants == old.restaurants
    &&& new.menu_items == old.menu_items
    &&& new.riders == old.riders
    &&& new.escrows == old.escrows
    &&& new.order_count == old.order_count
}

/// Why `accept_order` by `sender` on `id` is refused, checked in this order.
pub open spec fn accept_check(s: &State, sender: Seq<char>, id: Seq<char>) -> Result<(), ContractError> {
    let o = s.orders.map()[id];
    if !s.orders.map().contains_key(id) {
        Err(ContractError::OrderNotFound)
    } else if o.status != OrderStatus::Created {
        Err(ContractError::OrderAlreadyProcessed)
    } else if !s.restaurants.map().contains_key(o.restaurant_id@) {
        Err(ContractError::RestaurantNotFound)
    } else if sender != s.restaurants.map()[o.restaurant_id@].owner@ {
        Err(ContractError::Unauthorized)
    } else {
        Ok(())
    }
}

/// The owner of the ordering restaurant accepts a newly created order.
pub fn accept_order(state: &mut State, sender: &str, order_id: &str) -> (r: Result<
    Response,
    ContractError,
>)
    requires
        old(state).wf(),
    ensures
        final(state).wf(),
        match accept_check(&*old(state), sender@, order_id@) {
            Err(e) => r == Err::<Response, ContractError>(e) && *final(state) == *old(state),
            Ok(_) => r matches Ok(resp) && only_orders_changed(&*old(state), &*final(state))
                && final(state).orders.map() == old(state).orders.map().insert(
                order_id@,
                Order { status: OrderStatus::Accepted, ..old(state).orders.map()[order_id@] },
            ) && records(resp, seq![
                ("action"@, "accept_order"@),
                ("order_id"@, order_id@),
            ]),
        },
{
    let order = match state.orders.get(order_id) {
        Some(o) => o,
        None => return Err(ContractError::OrderNotFound),
    };
    if order.status != OrderStatus::Created {
        return Err(ContractError::OrderAlreadyProcessed);
    }
    let restaurant = match state.restaurants.get(order.restaurant_id.as_str()) {
        Some(r) => r,
        None => return Err(ContractError::RestaurantNotFound),
    };
    if !key_eq(sender, restaurant.owner.as_str()) {
        return Err(ContractError::Unauthorized);
    }
    let ghost before = *state;
    let mut accepted = state.orders.remove(order_id).unwrap();
    accepted.status = OrderStatus::Accepted;
    state.orders.insert(order_id.to_owned(), accepted);
    proof {
        assert(state.orders.map() =~= before.orders.map().insert(
            order_id@,
            Order { status: OrderStatus::Accepted, ..before.orders.map()[order_id@] },
        ));
    }
    let mut resp = action_response("accept_order");
    resp.attributes.push(attr_str("order_id", order_id));
    assert(attrs_view(resp.attributes@) =~= seq![
        ("action"@, "accept_order"@),
        ("order_id"@, order_id@),
    ]);
    Ok(resp)
}

/// Why `assign_rider` of `rider_id` to order `id` is refused, checked in this order.
pub open spec fn assign_check(s: &State, id: Seq<char>, rider_id: Seq<char>) -> Result<
    (),
    ContractError,
> {
    let o = s.orders.map()[id];
    if !s.orders.map().contains_key(id) {
        Err(ContractError::OrderNotFound)
    } else if o.status != OrderStatus::Accepted {
        Err(ContractError::OrderNotAccepted)
    } else if !s.riders.map().contains_key(rider_id) {
        Err(ContractError::RiderNotFound)
    } else if !s.riders.map()[rider_id].is_registered {
        Err(ContractError::UserNotRegistered)
    } else {
        Ok(())
    }
}

/// Hands an accepted order to a registered rider for delivery.
pub fn assign_rider(state: &mut State, order_id: &str, rider_id: String) -> (r: Result<
    Response,
    ContractError,
>)
    requires
        old(state).wf(),
    ensures
        final(state).wf(),
        match assign_check(&*old(state), order_id@, rider_id@) {
            Err(e) => r == Err::<Response, ContractError>(e) && *final(state) == *old(state),
            Ok(_) => only_orders_changed(&*old(state), &*final(state))
                && final(state).orders.map() == old(state).orders.map().insert(
                order_id@,
                Order {
                    status: OrderStatus::InDelivery,
                    rider_id: Some(rider_id),
                    ..old(state).orders.map()[order_id@]
                },
            ) && (r matches Ok(resp) && records(resp, seq![
                ("action"@, "assign_rider"@),
                ("order_id"@, order_id@),
                ("rider_id"@, rider_id@),
            ])),
        },
{
    let order = match state.orders.get(order_id) {
        Some(o) => o,
        None => return Err(ContractError::OrderNotFound),
    };
    if order.status != OrderStatus::Accepted {
        return Err(ContractError::OrderNotAccepted);
    }
    let rider = match state.riders.get(rider_id.as_str()) {
        Some(r) => r,
        None => return Err(ContractError::RiderNotFound),
    };
    if !rider.is_registered {
        return Err(ContractError::UserNotRegistered);
    }
    let ghost before = *state;
    let ghost assigned_id = rider_id;
    let mut resp = action_response("assign_rider");
    resp.attributes.push(attr_str("order_id", order_id));
    resp.attributes.push(attr_str("rider_id", rider_id.as_str()));
    assert(attrs_view(resp.attributes@) =~= seq![
        ("action"@, "assign_rider"@),
        ("order_id"@, order_id@),
        ("rider_id"@, rider_id@),
    ]);
    let mut assigned = state.orders.remove(order_id).unwrap();
    assigned.rider_id = Some(rider_id);
    assigned.status = OrderStatus::InDelivery;
    state.orders.insert(order_id.to_owned(), assigned);
    proof {
        assert(state.orders.map() =~= before.orders.map().insert(
            order_id@,
            Order {
                status: OrderStatus::InDelivery,
                rider_id: Some(assigned_id),
                ..before.orders.map()[order_id@]
            },
        ));
    }
    Ok(resp)
}

/// Writes the escrow of `order_id` afresh from the first attached coin, whatever order
/// (if any) it belongs to. An escrow already released stays released: it is not refunded.
pub fn deposit_funds(state: &mut State, funds: &Vec<Coin>, order_id: String) -> (r: Result<
    Response,
    ContractError,
>)
    requires
        old(state).wf(),
    ensures
        final(state).wf(),
        funds@.len() == 0 ==> r == Err::<Response, ContractError>(ContractError::InsufficientFunds)
            && *final(state) == *old(state),
        funds@.len() > 0 && old(state).escrows.map().contains_key(order_id@) && old(
            state,
        ).escrows.map()[order_id@].released ==> r == Err::<Response, ContractError>(
            ContractError::FundsAlreadyReleased,
        ) && *final(state) == *old(state),
        funds@.len() > 0 && !(old(state).escrows.map().contains_key(order_id@) && old(
            state,
        ).escrows.map()[order_id@].released) ==> (r matches Ok(resp) && records(
            resp,
            seq![("action"@, "deposit_funds"@)],
        )) && {
            let e = final(state).escrows.map()[order_id@];
            &&& final(state).escrows.map() == old(state).escrows.map().insert(order_id@, e)
            &&& e.order_id@ == order_id@
            &&& e.amount == funds@[0].amount
            &&& !e.released
            &&& final(state).config == old(state).config
            &&& final(state).restaurants == old(state).restaurants
            &&& final(state).menu_items == old(state).menu_items
            &&& final(state).riders == old(state).riders
            &&& final(state).orders == old(state).orders
            &&& final(state).order_count == old(state).order_count
        },
{
    if funds.len() == 0 {
        return Err(ContractError::InsufficientFunds);
    }
    if let Some(held) = state.escrows.get(order_id.as_str()) {
        if held.released {
            return Err(ContractError::FundsAlreadyReleased);
        }
    }
    let amount = funds[0].amount;
    let escrow = Escrow { order_id: order_id.clone(), amount, released: false };
    state.escrows.insert(order_id, escrow);
    Ok(action_response("deposit_funds"))
}

/// Registers (or registers again, overwriting) the restaurant of `sender`.
pub fn register_restaurant(
    state: &mut State,
    sender: &str,
    name: String,
    image_uri: String,
    restaurant_address: String,
) -> (r: Response)
    requires
        old(state).wf(),
    ensures
        final(state).wf(),
        ({
            let k = restaurant_key(sender@);
            let rest = final(state).restaurants.map()[k];
            &&& final(state).restaurants.map() == old(state).restaurants.map().insert(k, rest)
            &&& rest.id@ == k
            &&& rest.owner@ == sender@
            &&& rest.name == name
            &&& rest.image_uri == image_uri
            &&& rest.restaurant_address == restaurant_address
        }),
        records(r, seq![("action"@, "register_restaurant"@)]),
        final(state).config == old(state).config,
        final(state).menu_items == old(state).menu_items,
        final(state).riders == old(state).riders,
        final(state).orders == old(state).orders,
        final(state).escrows == old(state).escrows,
        final(state).order_count == old(state).order_count,
{
    let restaurant_id = restaurant_id_for(sender);
    let restaurant = Restaurant {
        id: restaurant_id.clone(),
        owner: sender.to_owned(),
        name,
        image_uri,
        restaurant_address,
    };
    state.restaurants.insert(restaurant_id, restaurant);
    action_response("register_restaurant")
}

/// Registers (or registers again, overwriting) `sender` as a rider paid to that wallet.
pub fn register_rider(state: &mut State, sender: &str, name: String) -> (r: Response)
    requires
        old(state).wf(),
    ensures
        final(state).wf(),
        ({
            let k = rider_key(sender@);
            let rider = final(state).riders.map()[k];
            &&& final(state).riders.map() == old(state).riders.map().insert(k, rider)
            &&& rider.id@ == k
            &&& rider.wallet@ == sender@
            &&& rider.name == name
            &&& rider.is_registered
            &&& records(r, seq![("action"@, "register_rider"@), ("rider_id"@, k)])
        }),
        final(state).config == old(state).config,
        final(state).restaurants == old(state).restaurants,
        final(state).menu_items == old(state).menu_items,
        final(state).orders == old(state).orders,
        final(state).escrows == old(state).escrows,
        final(state).order_count == old(state).order_count,
{
    let rider_id = rider_id_for(sender);
    let rider = Rider {
        id: rider_id.clone(),
        name,
        wallet: sender.to_owned(),
        is_registered: true,
    };
    let mut resp = action_response("register_rider");
    resp.attributes.push(attr("rider_id", rider_id.clone()));
    assert(attrs_view(resp.attributes@) =~= seq![
        ("action"@, "register_rider"@),
        ("rider_id"@, rider_key(sender@)),
    ]);
    state.riders.insert(rider_id, rider);
    resp
}

/// Nothing but the menus differ between `old` and `new`, and among the menus only that of
/// restaurant `r`.
pub open spec fn only_menu_changed(old: &State, new: &State, r: Seq<char>) -> bool {
    &&& new.menu_items.map() == old.menu_items.map().insert(r, new.menu_items.map()[r])
    &&& new.config == old.config
    &&& new.restaurants == old.restaurants
    &&& new.riders == old.riders
    &&& new.orders == old.orders
    &&& new.escrows == old.escrows
    &&& new.order_count == old.order_count
}

/// Takes the menu of restaurant `rid` out of the state (an empty one where it has none).
fn take_menu(state: &mut State, rid: &str) -> (t: Table<MenuItem>)
    requires
        old(state).wf(),
    ensures
        t.wf(),
        t.map() == old(state).menu(rid@),
        final(state).menu_items.wf(),
        final(state).menu_items.map() == old(state).menu_items.map().remove(rid@),
        final(state).config == old(state).config,
        final(state).restaurants == old(state).restaurants,
        final(state).riders == old(state).riders,
        final(state).orders == old(state).orders,
        final(state).escrows == old(state).escrows,
        final(state).order_count == old(state).order_count,
{
    match state.menu_items.remove(rid) {
        Some(t) => t,
        None => Table::new(),
    }
}

/// Puts a menu taken by `take_menu` back under restaurant `rid`.
fn put_menu(state: &mut State, rid: &str, t: Table<MenuItem>, Ghost(before): Ghost<State>)
    requires
        before.wf(),
        t.wf(),
        old(state).menu_items.wf(),
        old(state).menu_items.map() == before.menu_items.map().remove(rid@),
        old(state).config == before.config,
        old(state).restaurants == before.restaurants,
        old(state).riders == before.riders,
        old(state).orders == before.orders,
        old(state).escrows == before.escrows,
        old(state).order_count == before.order_count,
    ensures
        final(state).wf(),
        only_menu_changed(&before, &*final(state), rid@),
        final(state).menu(rid@) == t.map(),
        forall|r: Seq<char>| r != rid@ ==> #[trigger] final(state).menu(r) == before.menu(r),
{
    state.menu_items.insert(rid.to_owned(), t);
    proof {
        assert(state.menu_items.map() =~= before.menu_items.map().insert(
            rid@,
            state.menu_items.map()[rid@],
        ));
    }
}

/// The restaurant of `sender` adds an item to its menu, available at once.
pub fn add_menu_item(
    state: &mut State,
    sender: &str,
    item_id: String,
    name: String,
    price: u128,
    image_uri: String,
) -> (r: Result<Response, ContractError>)
    requires
        old(state).wf(),
    ensures
        final(state).wf(),
        ({
            let k = restaurant_key(sender@);
            if !old(state).restaurants.map().contains_key(k) {
                r == Err::<Response, ContractError>(ContractError::RestaurantNotFound)
                    && *final(state) == *old(state)
            } else {
                let item = final(state).menu(k)[item_id@];
                &&& (r matches Ok(resp) && records(resp, seq![("action"@, "add_menu_item"@)]))
                &&& only_menu_changed(&*old(state), &*final(state), k)
                &&& final(state).menu(k) == old(state).menu(k).insert(item_id@, item)
                &&& item.id == item_id
                &&& item.name == name
                &&& item.price == price
                &&& item.available
                &&& item.image_uri == image_uri
            }
        }),
{
    let restaurant_id = restaurant_id_for(sender);
    if state.restaurants.get(restaurant_id.as_str()).is_none() {
        return Err(ContractError::RestaurantNotFound);
    }
    let ghost before = *state;
    let mut menu = take_menu(state, restaurant_id.as_str());
    let item = MenuItem { id: item_id.clone(), name, price, available: true, image_uri };
    menu.insert(item_id, item);
    put_menu(state, restaurant_id.as_str(), menu, Ghost(before));
    Ok(action_response("add_menu_item"))
}

/// The restaurant of `sender` takes an item off its menu; an absent item is no error.
pub fn remove_menu_item(state: &mut State, sender: &str, item_id: &str) -> (r: Result<
    Response,
    ContractError,
>)
    requires
        old(state).wf(),
    ensures
        final(state).wf(),
        ({
            let k = restaurant_key(sender@);
            if !old(state).restaurants.map().contains_key(k) {
                r == Err::<Response, ContractError>(ContractError::RestaurantNotFound)
                    && *final(state) == *old(state)
            } else {
                &&& (r matches Ok(resp) && records(resp, seq![("action"@, "remove_menu_item"@)]))
                &&& only_menu_changed(&*old(state), &*final(state), k)
                &&& final(state).menu(k) == old(state).menu(k).remove(item_id@)
            }
        }),
{
    let restaurant_id = restaurant_id_for(sender);
    if state.restaurants.get(restaurant_id.as_str()).is_none() {
        return Err(ContractError::RestaurantNotFound);
    }
    let ghost before = *state;
    let mut menu = take_menu(state, restaurant_id.as_str());
    let _ = menu.remove(item_id);
    put_menu(state, restaurant_id.as_str(), menu, Ghost(before));
    Ok(action_response("remove_menu_item"))
}

/// `item` with each field that is given replaced.
pub open spec fn updated_item(
    item: MenuItem,
    name: Option<String>,
    price: Option<u128>,
    available: Option<bool>,
    image_uri: Option<String>,
) -> MenuItem {
    MenuItem {
        id: item.id,
        name: if name is Some {
            name->Some_0
        } else {
            item.name
        },
        price: if price is Some {
            price->Some_0
        } else {
            item.price
        },
        available: if available is Some {
            available->Some_0
        } else {
            item.available
        },
        image_uri: if image_uri is Some {
            image_uri->Some_0
        } else {
            item.image_uri
        },
    }
}

/// Takes item `item_id` of `sender`'s restaurant out of the state, for a change.
fn take_menu_item(state: &mut State, sender: &str, item_id: &str) -> (r: Result<
    (String, Table<MenuItem>, MenuItem),
    ContractError,
>)
    requires
        old(state).wf(),
    ensures
        ({
            let k = restaurant_key(sender@);
            if !old(state).restaurants.map().contains_key(k) {
                r == Err::<(String, Table<MenuItem>, MenuItem), ContractError>(
                    ContractError::RestaurantNotFound,
                ) && *final(state) == *old(state)
            } else if !old(state).menu(k).contains_key(item_id@) {
                r == Err::<(String, Table<MenuItem>, MenuItem), ContractError>(
                    ContractError::MenuItemNotFound,
                ) && *final(state) == *old(state)
            } else {
                r matches Ok((rid, t, item)) && {
                    &&& rid@ == k
                    &&& t.wf()
                    &&& t.map() == old(state).menu(k).remove(item_id@)
                    &&& item == old(state).menu(k)[item_id@]
                    &&& final(state).menu_items.wf()
                    &&& final(state).menu_items.map() == old(state).menu_items.map().remove(k)
                    &&& final(state).config == old(state).config
                    &&& final(state).restaurants == old(state).restaurants
                    &&& final(state).riders == old(state).riders
                    &&& final(state).orders == old(state).orders
                    &&& final(state).escrows == old(state).escrows
                    &&& final(state).order_count == old(state).order_count
                }
            }
        }),
{
    let restaurant_id = restaurant_id_for(sender);
    if state.restaurants.get(restaurant_id.as_str()).is_none() {
        return Err(ContractError::RestaurantNotFound);
    }
    let found = match state.menu_items.get(restaurant_id.as_str()) {
        Some(t) => t.get(item_id).is_some(),
        None => false,
    };
    if !found {
        return Err(ContractError::MenuItemNotFound);
    }
    let mut menu = take_menu(state, restaurant_id.as_str());
    let item = menu.remove(item_id).unwrap();
    Ok((restaurant_id, menu, item))
}

/// The restaurant of `sender` changes the given fields of one of its items.
pub fn update_menu_item(
    state: &mut State,
    sender: &str,
    item_id: &str,
    name: Option<String>,
    price: Option<u128>,
    available: Option<bool>,
    image_uri: Option<String>,
) -> (r: Result<Response, ContractError>)
    requires
        old(state).wf(),
    ensures
        final(state).wf(),
        ({
            let k = restaurant_key(sender@);
            if !old(state).restaurants.map().contains_key(k) {
                r == Err::<Response, ContractError>(ContractError::RestaurantNotFound)
                    && *final(state) == *old(state)
            } else if !old(state).menu(k).contains_key(item_id@) {
                r == Err::<Response, ContractError>(ContractError::MenuItemNotFound)
                    && *final(state) == *old(state)
            } else {
                &&& (r matches Ok(resp) && records(
                    resp,
                    seq![
                        ("action"@, "update_menu_item"@),
                        ("restaurant_id"@, k),
                        ("item_id"@, item_id@),
                    ],
                ))
                &&& only_menu_changed(&*old(state), &*final(state), k)
                &&& final(state).menu(k) == old(state).menu(k).insert(
                    item_id@,
                    updated_item(old(state).menu(k)[item_id@], name, price, available, image_uri),
                )
            }
        }),
{
    let ghost before = *state;
    let ghost changes = (name, price, available, image_uri);
    let (restaurant_id, mut menu, mut item) = match take_menu_item(state, sender, item_id) {
        Ok(taken) => taken,
        Err(e) => return Err(e),
    };
    if let Some(new_name) = name {
        item.name = new_name;
    }
    if let Some(new_price) = price {
        item.price = new_price;
    }
    if let Some(new_available) = available {
        item.available = new_available;
    }
    if let Some(new_image_uri) = image_uri {
        item.image_uri = new_image_uri;
    }
    let ghost k = restaurant_id@;
    assert(item == updated_item(before.menu(k)[item_id@], changes.0, changes.1, changes.2, changes.3));
    menu.insert(item_id.to_owned(), item);
    proof {
        assert(menu.map() =~= before.menu(k).insert(item_id@, item));
    }
    let mut resp = action_response("update_menu_item");
    resp.attributes.push(attr("restaurant_id", restaurant_id.clone()));
    resp.attributes.push(attr_str("item_id", item_id));
    assert(attrs_view(resp.attributes@) =~= seq![
        ("action"@, "update_menu_item"@),
        ("restaurant_id"@, k),
        ("item_id"@, item_id@),
    ]);
    put_menu(state, restaurant_id.as_str(), menu, Ghost(before));
    Ok(resp)
}

/// The restaurant of `sender` flips whether one of its items can be ordered.
pub fn toggle_menu_item_availability(state: &mut State, sender: &str, item_id: &str) -> (r: Result<
    Response,
    ContractError,
>)
    requires
        old(state).wf(),
    ensures
        final(state).wf(),
        ({
            let k = restaurant_key(sender@);
            if !old(state).restaurants.map().contains_key(k) {
                r == Err::<Response, ContractError>(ContractError::RestaurantNotFound)
                    && *final(state) == *old(state)
            } else if !old(state).menu(k).contains_key(item_id@) {
                r == Err::<Response, ContractError>(ContractError::MenuItemNotFound)
                    && *final(state) == *old(state)
            } else {
                let item = old(state).menu(k)[item_id@];
                &&& (r matches Ok(resp) && records(
                    resp,
                    seq![
                        ("action"@, "toggle_menu_item_availability"@),
                        ("restaurant_id"@, k),
                        ("item_id"@, item_id@),
                        ("available"@, if item.available { "false"@ } else { "true"@ }),
                    ],
                ))
                &&& only_menu_changed(&*old(state), &*final(state), k)
                &&& final(state).menu(k) == old(state).menu(k).insert(
                    item_id@,
                    MenuItem { available: !item.available, ..item },
                )
            }
        }),
{
    let ghost before = *state;
    let (restaurant_id, mut menu, mut item) = match take_menu_item(state, sender, item_id) {
        Ok(taken) => taken,
        Err(e) => return Err(e),
    };
    item.available = !item.available;
    let now_available = item.available;
    let ghost k = restaurant_id@;
    menu.insert(item_id.to_owned(), item);
    proof {
        assert(menu.map() =~= before.menu(k).insert(item_id@, item));
    }
    let mut resp = action_response("toggle_menu_item_availability");
    resp.attributes.push(attr("restaurant_id", restaurant_id.clone()));
    resp.attributes.push(attr_str("item_id", item_id));
    resp.attributes.push(attr_str("available", if now_available { "true" } else { "false" }));
    proof {
        assert(attrs_view(resp.attributes@) =~= seq![
            ("action"@, "toggle_menu_item_availability"@),
            ("restaurant_id"@, k),
            ("item_id"@, item_id@),
            ("available"@, if now_available { "true"@ } else { "false"@ }),
        ]);
    }
    put_menu(state, restaurant_id.as_str(), menu, Ghost(before));
    Ok(resp)
}

/// Nothing but the platform's configuration differs between `old` and `new`.
pub open spec fn only_config_changed(old: &State, new: &State) -> bool {
    &&& new.restaurants == old.restaurants
    &&& new.menu_items == old.menu_items
    &&& new.riders == old.riders
    &&& new.orders == old.orders
    &&& new.escrows == old.escrows
    &&& new.order_count == old.order_count
}

/// Sets up the platform with one owner and its fee. A fee above one whole is refused.
pub fn init(
    state: &mut State,
    platform_name: String,
    platform_description: String,
    owner_address: String,
    fee_percentage: u128,
    fee_address: String,
) -> (r: Result<Response, ContractError>)
    requires
        old(state).wf(),
    ensures
        final(state).wf(),
        fee_percentage > FEE_SCALE ==> r == Err::<Response, ContractError>(
            ContractError::InvalidFeePercentage {  },
        ) && *final(state) == *old(state),
        fee_percentage <= FEE_SCALE ==> ((r matches Ok(resp) && records(
            resp,
            seq![("action"@, "init"@)],
        )) && only_config_changed(&*old(state), &*final(state))
            && (final(state).config matches Some(c) && c.platform_name == platform_name
            && c.platform_description == platform_description && owner_ids(c) == seq![owner_address@]
            && c.fee_percentage == fee_percentage && c.fee_address == fee_address)),
{
    if fee_percentage > FEE_SCALE {
        return Err(ContractError::InvalidFeePercentage {  });
    }
    let ghost owner = owner_address@;
    let mut owners: Vec<String> = Vec::new();
    owners.push(owner_address);
    let config = PlatformConfig {
        platform_name,
        platform_description,
        owners,
        fee_percentage,
        fee_address,
    };
    assert(owner_ids(config) =~= seq![owner]);
    state.config = Some(config);
    Ok(action_response("init"))
}

/// Where `who` stands among `owners`.
fn owner_index(owners: &Vec<String>, who: &str) -> (r: Option<usize>)
    ensures
        r matches Some(i) ==> i < owners@.len() && owners@[i as int]@ == who@,
        r is Some == owners@.map_values(|o: String| o@).contains(who@),
{
    let ghost ids = owners@.map_values(|o: String| o@);
    let mut i: usize = 0;
    while i < owners.len()
        invariant
            ids == owners@.map_values(|o: String| o@),
            i <= owners@.len(),
            forall|j: int| 0 <= j < i ==> owners@[j]@ != who@,
        decreases owners@.len() - i,
    {
        if key_eq(owners[i].as_str(), who) {
            assert(ids[i as int] == who@);
            return Some(i);
        }
        i = i + 1;
    }
    proof {
        assert forall|j: int| 0 <= j < ids.len() implies ids[j] != who@ by {
            assert(ids[j] == owners@[j]@);
        }
    }
    None
}

/// Why an owner change by `sender` is refused.
pub open spec fn owner_check(s: &State, sender: Seq<char>) -> Result<(), ContractError> {
    if s.config is None {
        Err(ContractError::NotInitialized)
    } else if !owner_ids(s.config->Some_0).contains(sender) {
        Err(ContractError::Unauthorized)
    } else {
        Ok(())
    }
}

/// An owner adds `new_owner` to the owners; adding a present owner changes nothing.
pub fn add_new_owner(state: &mut State, sender: &str, new_owner: String) -> (r: Result<
    Response,
    ContractError,
>)
    requires
        old(state).wf(),
    ensures
        final(state).wf(),
        match owner_check(&*old(state), sender@) {
            Err(e) => r == Err::<Response, ContractError>(e) && *final(state) == *old(state),
            Ok(_) => {
                let c = old(state).config->Some_0;
                &&& (r matches Ok(resp) && records(resp, seq![("action"@, "add_new_owner"@)]))
                &&& only_config_changed(&*old(state), &*final(state))
                &&& (final(state).config matches Some(n) && n.platform_name == c.platform_name
                    && n.platform_description == c.platform_description && n.fee_percentage
                    == c.fee_percentage && n.fee_address == c.fee_address && owner_ids(n) == if owner_ids(
                    c,
                ).contains(new_owner@) {
                    owner_ids(c)
                } else {
                    owner_ids(c).push(new_owner@)
                })
            },
        },
{
    let config = match &state.config {
        Some(c) => c,
        None => return Err(ContractError::NotInitialized),
    };
    if owner_index(&config.owners, sender).is_none() {
        return Err(ContractError::Unauthorized);
    }
    let present = owner_index(&config.owners, new_owner.as_str()).is_some();
    if present {
        return Ok(action_response("add_new_owner"));
    }
    let mut c = state.config.take().unwrap();
    let ghost ids = owner_ids(c);
    let ghost added = new_owner@;
    c.owners.push(new_owner);
    proof {
        assert(owner_ids(c) =~= ids.push(added));
        assert(owner_ids(c).no_duplicates()) by {
            assert forall|a: int, b: int|
                0 <= a < owner_ids(c).len() && 0 <= b < owner_ids(c).len() && a != b implies owner_ids(
                c,
            )[a] != owner_ids(c)[b] by {
                if a == ids.len() as int {
                    assert(ids[b] != added);
                } else if b == ids.len() as int {
                    assert(ids[a] != added);
                }
            }
        }
    }
    state.config = Some(c);
    Ok(action_response("add_new_owner"))
}

/// An owner removes `owner` from the owners; removing an absent owner changes nothing,
/// and the last owner cannot be removed.
pub fn remove_owner(state: &mut State, sender: &str, owner: &str) -> (r: Result<
    Response,
    ContractError,
>)
    requires
        old(state).wf(),
    ensures
        final(state).wf(),
        match owner_check(&*old(state), sender@) {
            Err(e) => r == Err::<Response, ContractError>(e) && *final(state) == *old(state),
            Ok(_) => {
                let c = old(state).config->Some_0;
                if !owner_ids(c).contains(owner@) {
                    (r matches Ok(resp) && records(resp, seq![("action"@, "remove_owner"@)]))
                        && *final(state) == *old(state)
                } else if owner_ids(c).len() == 1 {
                    r == Err::<Response, ContractError>(ContractError::LastOwner) && *final(state)
                        == *old(state)
                } else {
                    &&& (r matches Ok(resp) && records(resp, seq![("action"@, "remove_owner"@)]))
                    &&& only_config_changed(&*old(state), &*final(state))
                    &&& (final(state).config matches Some(n) && n.platform_name == c.platform_name
                        && n.platform_description == c.platform_description && n.fee_percentage
                        == c.fee_percentage && n.fee_address == c.fee_address
                        && forall|x: Seq<char>| #[trigger] owner_ids(n).contains(x) == (owner_ids(
                        c,
                    ).contains(x) && x != owner@))
                }
            },
        },
{
    let config = match &state.config {
        Some(c) => c,
        None => return Err(ContractError::NotInitialized),
    };
    if owner_index(&config.owners, sender).is_none() {
        return Err(ContractError::Unauthorized);
    }
    let i = match owner_index(&config.owners, owner) {
        Some(i) => i,
        None => return Ok(action_response("remove_owner")),
    };
    if config.owners.len() == 1 {
        return Err(ContractError::LastOwner);
    }
    let mut c = state.config.take().unwrap();
    let ghost ids = owner_ids(c);
    c.owners.remove(i);
    proof {
        assert(owner_ids(c) =~= ids.remove(i as int));
        assert(owner_ids(c).no_duplicates()) by {
            assert forall|a: int, b: int|
                0 <= a < owner_ids(c).len() && 0 <= b < owner_ids(c).len() && a != b implies owner_ids(
                c,
            )[a] != owner_ids(c)[b] by {
                let a1 = if a < i { a } else { a + 1 };
                let b1 = if b < i { b } else { b + 1 };
                assert(owner_ids(c)[a] == ids[a1]);
                assert(owner_ids(c)[b] == ids[b1]);
            }
        }
        assert forall|x: Seq<char>| #[trigger] owner_ids(c).contains(x) == (ids.contains(x) && x
            != owner@) by {
            {
                if owner_ids(c).contains(x) {
                    let j = choose|j: int| 0 <= j < owner_ids(c).len() && owner_ids(c)[j] == x;
                    let j1 = if j < i { j } else { j + 1 };
                    assert(ids[j1] == x);
                    assert(ids[i as int] == owner@);
                    assert(j1 != i);
                }
                if ids.contains(x) && x != owner@ {
                    let j = choose|j: int| 0 <= j < ids.len() && ids[j] == x;
                    if j < i {
                        assert(owner_ids(c)[j] == x);
                    } else {
                        assert(owner_ids(c)[j - 1] == x);
                    }
                }
            }
        }
    }
    state.config = Some(c);
    Ok(action_response("remove_owner"))
}

} // verus!
