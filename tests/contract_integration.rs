use tastella::execute::{
    accept_order, add_menu_item, add_new_owner, assign_rider, confirm_delivery, create_order,
    init, register_restaurant, register_rider,
};
use tastella::msg::OrderItem;
use tastella::query::{
    get_all_restaurants, get_escrow, get_menu_items_for_restaurant, get_order_cost,
    get_order_status_by_id, get_orders_for_restaurant, get_owners, get_rider, get_user_orders,
};
use tastella::state::{Coin, OrderStatus, Response, State};

const USER: &str = "xion1useraddress";
const USER_2: &str = "xion1adminaddress";
const NATIVE_DENOM: &str = "uxion";
const RESTAURANT_1: &str = "xion1restaurant1";
const FEE_WALLET: &str = "xion1fee_wallet";
const IMAGE: &str = "https://ipfs.io/ipfs/QmXoypizjW3WknFiJnKLwHCnL72vedxjQkDDP1mXWo6uco";

fn proper_instantiate() -> State {
    let mut state = State::new();
    init(
        &mut state,
        "Food Delivery Platform".to_string(),
        "A decentralized food delivery platform".to_string(),
        "xion1adminaddress".to_string(),
        50_000_000_000_000_000,
        FEE_WALLET.to_string(),
    )
    .unwrap();
    state
}

fn register(state: &mut State, user: &str, name: &str, image_uri: &str, address: &str) {
    register_restaurant(
        state,
        user,
        name.to_string(),
        image_uri.to_string(),
        address.to_string(),
    );
}

fn add_item(state: &mut State, user: &str, item_id: &str, name: &str, price: u128) {
    add_menu_item(state, user, item_id.to_string(), name.to_string(), price, IMAGE.to_string())
        .unwrap();
}

fn pizza_order() -> Vec<OrderItem> {
    vec![OrderItem { item_id: "item_1".to_string(), quantity: 2 }]
}

fn native(amount: u128) -> Vec<Coin> {
    vec![Coin { denom: NATIVE_DENOM.to_string(), amount }]
}

fn order_id_of(res: &Response) -> String {
    res.attributes
        .iter()
        .find(|a| a.key == "order_id")
        .expect("order_id attribute not found")
        .value
        .clone()
}

#[test]
fn test_get_owners() {
    let mut state = proper_instantiate();
    add_new_owner(&mut state, USER_2, "xion1newowner".to_string()).unwrap();
    let res = get_owners(&state).unwrap();
    assert_eq!(res.owners.len(), 2);
    assert!(res.owners.contains(&"xion1adminaddress".to_string()));
    assert!(res.owners.contains(&"xion1newowner".to_string()));
}

#[test]
fn test_register_and_get_restaurants() {
    let mut state = proper_instantiate();
    register(&mut state, USER, "Test Restaurant", IMAGE, RESTAURANT_1);
    let res = get_all_restaurants(&state);
    assert_eq!(res.restaurants.len(), 1);
    assert_eq!(res.restaurants[0].name, "Test Restaurant");
    assert_eq!(res.restaurants[0].image_uri, IMAGE);
}

#[test]
fn test_get_order_cost_and_create_order() {
    let mut state = proper_instantiate();
    register(&mut state, USER, "Test Restaurant", IMAGE, RESTAURANT_1);
    let restaurant_id = format!("restaurant_{}", USER);
    add_item(&mut state, USER, "item_1", "Pizza", 100);
    let cost = get_order_cost(&state, restaurant_id.clone(), pizza_order()).unwrap();
    assert_eq!(cost.total, 200);
    let res =
        create_order(&mut state, USER, &native(200), restaurant_id.clone(), pizza_order()).unwrap();
    let order_id = order_id_of(&res);
    let orders = get_user_orders(&state, USER).orders;
    let order = orders
        .iter()
        .find(|o| o.id == order_id)
        .expect("Order not found in GetOrders response");
    assert_eq!(order.total, 200);
    let escrow = get_escrow(&state, order_id.clone()).unwrap();
    assert_eq!(escrow.escrow.amount, 200);
}

#[test]
fn test_get_escrow() {
    let mut state = proper_instantiate();
    register(&mut state, USER, "Test Restaurant", IMAGE, RESTAURANT_1);
    let restaurant_id = format!("restaurant_{}", USER);
    add_item(&mut state, USER, "item_1", "Pizza", 100);
    let res = create_order(&mut state, USER, &native(200), restaurant_id, pizza_order()).unwrap();
    let order_id = order_id_of(&res);
    let res = get_escrow(&state, order_id.clone()).unwrap();
    assert_eq!(res.escrow.order_id, order_id);
    assert_eq!(res.escrow.amount, 200);
    assert_eq!(res.escrow.released, false);
}

#[test]
fn test_get_menu_items() {
    let mut state = proper_instantiate();
    register(&mut state, USER, "Test Restaurant", IMAGE, RESTAURANT_1);
    let restaurant_id = format!("restaurant_{}", USER);
    add_item(&mut state, USER, "item_1", "Pizza", 100);
    let res = get_menu_items_for_restaurant(&state, &restaurant_id);
    assert_eq!(res.menu_items.len(), 1);
    assert_eq!(res.menu_items[0].name, "Pizza");
}

#[test]
fn integration_tests_test_get_orders() {
    let mut state = proper_instantiate();
    register(&mut state, USER, "Test Restaurant", IMAGE, RESTAURANT_1);
    let restaurant_id = format!("restaurant_{}", USER);
    add_item(&mut state, USER, "item_1", "Pizza", 100);
    create_order(&mut state, USER, &native(200), restaurant_id.clone(), pizza_order()).unwrap();
    let res = get_orders_for_restaurant(&state, &restaurant_id);
    assert_eq!(res.orders.len(), 1);
    assert_eq!(res.orders[0].restaurant_id, restaurant_id);
}

#[test]
fn test_get_order_status_by_id() {
    let mut state = proper_instantiate();
    register(&mut state, USER, "Test Restaurant", IMAGE, RESTAURANT_1);
    let restaurant_id = format!("restaurant_{}", USER);
    add_item(&mut state, USER, "item_1", "Pizza", 100);
    let res = create_order(&mut state, USER, &native(200), restaurant_id, pizza_order()).unwrap();
    let order_id = order_id_of(&res);
    let res = get_order_status_by_id(&state, order_id.clone()).unwrap();
    assert_eq!(res.order_id, order_id);
    assert_eq!(res.status, OrderStatus::Created);
}

#[test]
fn integration_tests_test_register_rider() {
    let mut state = proper_instantiate();
    register_rider(&mut state, USER, "Test Rider".to_string());
    let rider_id = format!("rider_{}", USER);
    let rider = get_rider(&state, rider_id.clone()).rider.expect("Rider not found");
    assert_eq!(rider.name, "Test Rider");
    assert_eq!(rider.wallet, USER);
    assert_eq!(rider.id, rider_id);
}

#[test]
fn test_escrow_release_on_delivery() {
    let mut state = proper_instantiate();
    let restaurant_address = "xion1restaurant_wallet";
    register(&mut state, USER, "Test Restaurant", IMAGE, restaurant_address);
    let restaurant_id = format!("restaurant_{}", USER);
    add_item(&mut state, USER, "item_1", "Pizza", 100);
    let res = create_order(&mut state, USER, &native(200), restaurant_id, pizza_order()).unwrap();
    let order_id = order_id_of(&res);
    accept_order(&mut state, USER, &order_id).unwrap();
    register_rider(&mut state, USER, "Test Rider".to_string());
    let rider_id = format!("rider_{}", USER);
    assign_rider(&mut state, &order_id, rider_id).unwrap();
    let res = confirm_delivery(&mut state, USER, &order_id, 200).unwrap();
    let paid_to = |who: &str| -> u128 {
        res.messages
            .iter()
            .filter(|t| t.to_address == who && t.amount.denom == "uxion")
            .map(|t| t.amount.amount)
            .sum()
    };
    assert_eq!(paid_to(FEE_WALLET), 10);
    assert_eq!(paid_to(restaurant_address), 190);
}
