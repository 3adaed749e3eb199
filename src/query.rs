use vstd::prelude::*;

use crate::error::ContractError;
use crate::ids::{rider_id_for, rider_key};
use crate::msg::{
    GetEscrowResponse, GetLatestOrderIdResponse, GetMenuItemsResponse, GetOrderCostResponse,
    GetOrderResponse, GetOrderStatusResponse, GetOrdersResponse, GetOwnersResponse,
    GetRestaurantsResponse, GetRiderResponse, GetUserOrdersResponse, GetUserRestaurantsResponse,
    OrderItem, PlatformConfigResponse,
};
use crate::pricing::{price_order, price_spec};
use crate::state::{owner_ids, MenuItem, Order, OrderStatus, Restaurant, State};
use crate::table::{key_eq, key_lt, lemma_entries_map_at, lemma_sorted_distinct, Table};

verus! {

/// The values of a table's entries, in key order.
pub open spec fn values_of<V>(s: Seq<(Seq<char>, V)>) -> Seq<V> {
    s.map_values(|e: (Seq<char>, V)| e.1)
}

/// Two lists of orders hold the same orders, field for field, in the same order.
pub open spec fn same_orders(a: Seq<Order>, b: Seq<Order>) -> bool {
    a.len() == b.len() && forall|i: int| 0 <= i < a.len() ==> (#[trigger] a[i]).same(&b[i])
}

/// Which orders a listing keeps.
enum OrderFilter<'a> {
    Customer(&'a str),
    Restaurant(&'a str),
    Completed,
}

spec fn keeps(f: OrderFilter, o: Order) -> bool {
    match f {
        OrderFilter::Customer(a) => o.customer@ == a@,
        OrderFilter::Restaurant(r) => o.restaurant_id@ == r@,
        OrderFilter::Completed => o.status == OrderStatus::Completed,
    }
}

/// The orders that `f` keeps, in key order.
fn orders_where(orders: &Table<Order>, f: OrderFilter) -> (r: Vec<Order>)
    ensures
        same_orders(r@, values_of(orders@).filter(|o: Order| keeps(f, o))),
{
    let ghost pred = |o: Order| keeps(f, o);
    let ghost vals = values_of(orders@);
    let mut out: Vec<Order> = Vec::new();
    let mut i: usize = 0;
    while i < orders.len()
        invariant
            vals == values_of(orders@),
            pred == (|o: Order| keeps(f, o)),
            i <= orders@.len(),
            same_orders(out@, vals.subrange(0, i as int).filter(pred)),
        decreases orders@.len() - i,
    {
        let o = orders.value_at(i);
        assert(vals.subrange(0, i + 1).drop_last() =~= vals.subrange(0, i as int));
        assert(vals.subrange(0, i + 1).last() == *o);
        let kept = match f {
            OrderFilter::Customer(a) => key_eq(o.customer.as_str(), a),
            OrderFilter::Restaurant(rid) => key_eq(o.restaurant_id.as_str(), rid),
            OrderFilter::Completed => o.status == OrderStatus::Completed,
        };
        assert(pred(*o) == kept);
        proof {
            reveal(Seq::filter);
        }
        let ghost prev = out@;
        if kept {
            out.push(o.duplicate());
            assert(vals.subrange(0, i + 1).filter(pred) == vals.subrange(0, i as int).filter(
                pred,
            ).push(*o));
            assert(forall|j: int| 0 <= j < prev.len() ==> out@[j] == prev[j]);
        } else {
            assert(vals.subrange(0, i + 1).filter(pred) == vals.subrange(0, i as int).filter(pred));
        }
        i = i + 1;
    }
    assert(vals.subrange(0, i as int) =~= vals);
    out
}

/// The platform's configuration, with its first owner (or nothing) as the owner address.
pub fn query_platform_config(state: &State) -> (r: Result<PlatformConfigResponse, ContractError>)
    ensures
        state.config is None ==> r == Err::<PlatformConfigResponse, ContractError>(
            ContractError::NotInitialized,
        ),
        state.config matches Some(c) ==> r matches Ok(resp) && resp.platform_name
            == c.platform_name && resp.platform_description == c.platform_description
            && resp.fee_percentage == c.fee_percentage && resp.fee_address == c.fee_address
            && resp.owner_address@ == if owner_ids(c).len() > 0 {
            owner_ids(c)[0]
        } else {
            Seq::<char>::empty()
        },
{
    let config = match &state.config {
        Some(c) => c,
        None => return Err(ContractError::NotInitialized),
    };
    let owner_address = if config.owners.len() > 0 {
        config.owners[0].clone()
    } else {
        String::new()
    };
    Ok(PlatformConfigResponse {
        platform_name: config.platform_name.clone(),
        platform_description: config.platform_description.clone(),
        owner_address,
        fee_percentage: config.fee_percentage,
        fee_address: config.fee_address.clone(),
    })
}

pub fn get_owners(state: &State) -> (r: Result<GetOwnersResponse, ContractError>)
    ensures
        state.config is None ==> r == Err::<GetOwnersResponse, ContractError>(
            ContractError::NotInitialized,
        ),
        state.config matches Some(c) ==> r matches Ok(resp) && resp.owners@ == c.owners@,
{
    let config = match &state.config {
        Some(c) => c,
        None => return Err(ContractError::NotInitialized),
    };
    let mut owners: Vec<String> = Vec::new();
    let mut i: usize = 0;
    while i < config.owners.len()
        invariant
            i <= config.owners@.len(),
            owners@ == config.owners@.subrange(0, i as int),
        decreases config.owners@.len() - i,
    {
        owners.push(config.owners[i].clone());
        i = i + 1;
    }
    assert(owners@ =~= config.owners@);
    Ok(GetOwnersResponse { owners })
}

/// Every restaurant, in key order.
pub fn get_all_restaurants(state: &State) -> (r: GetRestaurantsResponse)
    ensures
        r.restaurants@ == values_of(state.restaurants@),
{
    let mut out: Vec<Restaurant> = Vec::new();
    let mut i: usize = 0;
    while i < state.restaurants.len()
        invariant
            i <= state.restaurants@.len(),
            out@ == values_of(state.restaurants@).subrange(0, i as int),
        decreases state.restaurants@.len() - i,
    {
        out.push(state.restaurants.value_at(i).duplicate());
        i = i + 1;
    }
    assert(out@ =~= values_of(state.restaurants@));
    GetRestaurantsResponse { restaurants: out }
}

/// The restaurants that `owner` owns, in key order.
pub fn get_user_restaurants(state: &State, owner: &str) -> (r: GetUserRestaurantsResponse)
    ensures
        r.restaurants@ == values_of(state.restaurants@).filter(|x: Restaurant| x.owner@ == owner@),
{
    let ghost pred = |x: Restaurant| x.owner@ == owner@;
    let ghost vals = values_of(state.restaurants@);
    let mut out: Vec<Restaurant> = Vec::new();
    let mut i: usize = 0;
    while i < state.restaurants.len()
        invariant
            vals == values_of(state.restaurants@),
            pred == (|x: Restaurant| x.owner@ == owner@),
            i <= state.restaurants@.len(),
            out@ == vals.subrange(0, i as int).filter(pred),
        decreases state.restaurants@.len() - i,
    {
        let x = state.restaurants.value_at(i);
        assert(vals.subrange(0, i + 1).drop_last() =~= vals.subrange(0, i as int));
        assert(vals.subrange(0, i + 1).last() == *x);
        let kept = key_eq(x.owner.as_str(), owner);
        assert(pred(*x) == kept);
        proof {
            reveal(Seq::filter);
        }
        if kept {
            out.push(x.duplicate());
            assert(vals.subrange(0, i + 1).filter(pred) == vals.subrange(0, i as int).filter(
                pred,
            ).push(*x));
        } else {
            assert(vals.subrange(0, i + 1).filter(pred) == vals.subrange(0, i as int).filter(pred));
        }
        i = i + 1;
    }
    assert(vals.subrange(0, i as int) =~= vals);
    GetUserRestaurantsResponse { restaurants: out }
}

/// The menu of `restaurant_id`, by item id; empty where it has none.
pub fn get_menu_items_for_restaurant(state: &State, restaurant_id: &str) -> (r:
    GetMenuItemsResponse)
    requires
        state.wf(),
    ensures
        state.menu_items.map().contains_key(restaurant_id@) ==> r.menu_items@ == values_of(
            state.menu_items.map()[restaurant_id@]@,
        ),
        !state.menu_items.map().contains_key(restaurant_id@) ==> r.menu_items@.len() == 0,
{
    let mut out: Vec<MenuItem> = Vec::new();
    let menu = match state.menu_items.get(restaurant_id) {
        Some(t) => t,
        None => return GetMenuItemsResponse { menu_items: out },
    };
    let mut i: usize = 0;
    while i < menu.len()
        invariant
            i <= menu@.len(),
            out@ == values_of(menu@).subrange(0, i as int),
        decreases menu@.len() - i,
    {
        out.push(menu.value_at(i).duplicate());
        i = i + 1;
    }
    assert(out@ =~= values_of(menu@));
    GetMenuItemsResponse { menu_items: out }
}

/// The orders placed with `restaurant_id`, in key order.
pub fn get_orders_for_restaurant(state: &State, restaurant_id: &str) -> (r: GetOrdersResponse)
    ensures
        same_orders(
            r.orders@,
            values_of(state.orders@).filter(|o: Order| o.restaurant_id@ == restaurant_id@),
        ),
{
    let orders = orders_where(&state.orders, OrderFilter::Restaurant(restaurant_id));
    proof {
        assert((|o: Order| keeps(OrderFilter::Restaurant(restaurant_id), o)) =~= (|o: Order|
            o.restaurant_id@ == restaurant_id@));
    }
    GetOrdersResponse { orders }
}

/// The orders that `address` placed, in key order.
pub fn get_user_orders(state: &State, address: &str) -> (r: GetUserOrdersResponse)
    ensures
        same_orders(r.orders@, values_of(state.orders@).filter(|o: Order| o.customer@ == address@)),
{
    let orders = orders_where(&state.orders, OrderFilter::Customer(address));
    proof {
        assert((|o: Order| keeps(OrderFilter::Customer(address), o)) =~= (|o: Order|
            o.customer@ == address@));
    }
    GetUserOrdersResponse { orders }
}

/// With `is_delivered`, the completed orders in key order; otherwise none.
pub fn get_order_status(state: &State, is_delivered: bool) -> (r: Vec<Order>)
    ensures
        is_delivered ==> same_orders(
            r@,
            values_of(state.orders@).filter(|o: Order| o.status == OrderStatus::Completed),
        ),
        !is_delivered ==> r@.len() == 0,
{
    if !is_delivered {
        return Vec::new();
    }
    let orders = orders_where(&state.orders, OrderFilter::Completed);
    proof {
        assert((|o: Order| keeps(OrderFilter::Completed, o)) =~= (|o: Order|
            o.status == OrderStatus::Completed));
    }
    orders
}

pub fn get_order_status_by_id(state: &State, order_id: String) -> (r: Result<
    GetOrderStatusResponse,
    ContractError,
>)
    requires
        state.wf(),
    ensures
        !state.orders.map().contains_key(order_id@) ==> r == Err::<
            GetOrderStatusResponse,
            ContractError,
        >(ContractError::OrderNotFound),
        state.orders.map().contains_key(order_id@) ==> (r matches Ok(resp) && resp.order_id
            == order_id && resp.status == state.orders.map()[order_id@].status),
{
    let status = match state.orders.get(order_id.as_str()) {
        Some(o) => o.status,
        None => return Err(ContractError::OrderNotFound),
    };
    Ok(GetOrderStatusResponse { order_id, status })
}

pub fn get_single_order(state: &State, order_id: String) -> (r: Result<
    GetOrderResponse,
    ContractError,
>)
    requires
        state.wf(),
    ensures
        !state.orders.map().contains_key(order_id@) ==> r == Err::<GetOrderResponse, ContractError>(
            ContractError::OrderNotFound,
        ),
        state.orders.map().contains_key(order_id@) ==> (r matches Ok(resp) && resp.order.same(
            &state.orders.map()[order_id@],
        )),
{
    get_order_by_id(state, order_id)
}

pub fn get_order_by_id(state: &State, order_id: String) -> (r: Result<
    GetOrderResponse,
    ContractError,
>)
    requires
        state.wf(),
    ensures
        !state.orders.map().contains_key(order_id@) ==> r == Err::<GetOrderResponse, ContractError>(
            ContractError::OrderNotFound,
        ),
        state.orders.map().contains_key(order_id@) ==> (r matches Ok(resp) && resp.order.same(
            &state.orders.map()[order_id@],
        )),
{
    match state.orders.get(order_id.as_str()) {
        Some(o) => Ok(GetOrderResponse { order: o.duplicate() }),
        None => Err(ContractError::OrderNotFound),
    }
}

pub fn get_escrow(state: &State, order_id: String) -> (r: Result<GetEscrowResponse, ContractError>)
    requires
        state.wf(),
    ensures
        !state.escrows.map().contains_key(order_id@) ==> r == Err::<
            GetEscrowResponse,
            ContractError,
        >(ContractError::EscrowNotFound),
        state.escrows.map().contains_key(order_id@) ==> (r matches Ok(resp) && resp.escrow
            == state.escrows.map()[order_id@]),
{
    match state.escrows.get(order_id.as_str()) {
        Some(e) => Ok(GetEscrowResponse { escrow: e.duplicate() }),
        None => Err(ContractError::EscrowNotFound),
    }
}

pub fn get_rider(state: &State, rider_id: String) -> (r: GetRiderResponse)
    requires
        state.wf(),
    ensures
        r.rider is Some == state.riders.map().contains_key(rider_id@),
        r.rider matches Some(x) ==> x == state.riders.map()[rider_id@],
{
    match state.riders.get(rider_id.as_str()) {
        Some(x) => GetRiderResponse { rider: Some(x.duplicate()) },
        None => GetRiderResponse { rider: None },
    }
}

/// The rider that `address` registered, if any.
pub fn get_rider_by_address(state: &State, address: &str) -> (r: GetRiderResponse)
    requires
        state.wf(),
    ensures
        r.rider is Some == state.riders.map().contains_key(rider_key(address@)),
        r.rider matches Some(x) ==> x == state.riders.map()[rider_key(address@)],
{
    get_rider(state, rider_id_for(address))
}

/// A cost quote: exactly what `create_order` would charge, changing nothing.
pub fn get_order_cost(state: &State, restaurant_id: String, items: Vec<OrderItem>) -> (r: Result<
    GetOrderCostResponse,
    ContractError,
>)
    requires
        state.wf(),
    ensures
        match price_spec(state, restaurant_id@, items@) {
            Ok(t) => r matches Ok(resp) && resp.total == t,
            Err(e) => r == Err::<GetOrderCostResponse, ContractError>(e),
        },
{
    match price_order(state, restaurant_id.as_str(), &items) {
        Ok(total) => Ok(GetOrderCostResponse { total }),
        Err(e) => Err(e),
    }
}

/// The key of the last order that `address` placed, in the store's key order.
pub fn get_latest_order_id(state: &State, address: &str) -> (r: GetLatestOrderIdResponse)
    requires
        state.wf(),
    ensures
        r.order_id is None == !exists|k: Seq<char>|
            #[trigger] state.orders.map().contains_key(k) && state.orders.map()[k].customer@
                == address@,
        r.order_id matches Some(id) ==> {
            &&& state.orders.map().contains_key(id@)
            &&& state.orders.map()[id@].customer@ == address@
            &&& forall|k: Seq<char>|
                #[trigger] state.orders.map().contains_key(k) && state.orders.map()[k].customer@
                    == address@ && k != id@ ==> key_lt(k, id@)
        },
{
    let ghost s = state.orders@;
    proof {
        lemma_sorted_distinct(s);
    }
    let mut best: Option<usize> = None;
    let mut i: usize = 0;
    while i < state.orders.len()
        invariant
            s == state.orders@,
            state.orders.wf(),
            i <= s.len(),
            best matches Some(b) ==> b < i && s[b as int].1.customer@ == address@,
            best matches Some(b) ==> forall|j: int|
                b < j < i ==> (#[trigger] s[j]).1.customer@ != address@,
            best is None ==> forall|j: int| 0 <= j < i ==> (#[trigger] s[j]).1.customer@ != address@,
        decreases s.len() - i,
    {
        if key_eq(state.orders.value_at(i).customer.as_str(), address) {
            best = Some(i);
        }
        i = i + 1;
    }
    match best {
        Some(b) => {
            let id = state.orders.key_at(b).clone();
            proof {
                lemma_entries_map_at(s, b as int);
                assert forall|k: Seq<char>|
                    #[trigger] state.orders.map().contains_key(k) && state.orders.map()[k].customer@
                        == address@ && k != id@ implies key_lt(k, id@) by {
                    let j = choose|j: int| 0 <= j < s.len() && s[j].0 == k;
                    lemma_entries_map_at(s, j);
                    assert(j < b);
                }
            }
            GetLatestOrderIdResponse { order_id: Some(id) }
        },
        None => {
            proof {
                assert forall|k: Seq<char>| #[trigger]
                    state.orders.map().contains_key(k) implies state.orders.map()[k].customer@
                    != address@ by {
                    let j = choose|j: int| 0 <= j < s.len() && s[j].0 == k;
                    lemma_entries_map_at(s, j);
                }
            }
            GetLatestOrderIdResponse { order_id: None }
        },
    }
}

} // verus!
