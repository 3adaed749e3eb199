use tastella::error::ContractError;
use tastella::execute::{
    accept_order, add_menu_item, assign_rider, confirm_delivery, create_order, init,
    register_restaurant, register_rider, remove_menu_item, toggle_menu_item_availability,
    update_menu_item,
};
use tastella::msg::OrderItem;
use tastella::query::{
    get_all_restaurants, get_rider_by_address, get_user_orders, get_user_restaurants,
};
use tastella::state::{Coin, OrderStatus, Response, State};

const FIVE_PERCENT: u128 = 50_000_000_000_000_000;

fn setup_contract() -> State {
    let mut state = State::new();
    init(
        &mut state,
        "Food Delivery Platform".to_string(),
        "A decentralized food delivery platform".to_string(),
        "creator".to_string(),
        FIVE_PERCENT,
        "fee_wallet".to_string(),
    )
    .unwrap();
    state
}

fn attrs(res: &Response) -> Vec<(String, String)> {
    res.attributes.iter().map(|a| (a.key.clone(), a.value.clone())).collect()
}

fn attr(k: &str, v: &str) -> (String, String) {
    (k.to_string(), v.to_string())
}

fn coins(amount: u128, denom: &str) -> Vec<Coin> {
    vec![Coin { denom: denom.to_string(), amount }]
}

fn pizza_order() -> Vec<OrderItem> {
    vec![OrderItem { item_id: "item_1".to_string(), quantity: 2 }]
}

fn restaurant_with_pizza(state: &mut State) {
    register_restaurant(
        state,
        "creator",
        "Test Restaurant".to_string(),
        "https://test.com".to_string(),
        "res".to_string(),
    );
    add_menu_item(
        state,
        "creator",
        "item_1".to_string(),
        "Pizza".to_string(),
        100,
        "https://test.com/pizza".to_string(),
    )
    .unwrap();
}

#[test]
fn test_register_restaurant() {
    let mut state = setup_contract();
    let res = register_restaurant(
        &mut state,
        "creator",
        "Test Restaurant".to_string(),
        "https://test.com".to_string(),
        "res".to_string(),
    );
    assert_eq!(res.messages.len(), 0);
    assert_eq!(attrs(&res), vec![attr("action", "register_restaurant")]);
    let restaurant = state.restaurants.get("restaurant_creator").unwrap();
    assert_eq!(restaurant.name, "Test Restaurant");
    assert_eq!(restaurant.owner, "creator");
}

#[test]
fn test_add_menu_item() {
    let mut state = setup_contract();
    register_restaurant(
        &mut state,
        "creator",
        "Test Restaurant".to_string(),
        "https://test.com".to_string(),
        "res".to_string(),
    );
    let res = add_menu_item(
        &mut state,
        "creator",
        "item_1".to_string(),
        "Pizza".to_string(),
        100,
        "https://test.com/pizza".to_string(),
    )
    .unwrap();
    assert_eq!(res.messages.len(), 0);
    assert_eq!(attrs(&res), vec![attr("action", "add_menu_item")]);
    let menu_item =
        state.menu_items.get("restaurant_creator").unwrap().get("item_1").unwrap();
    assert_eq!(menu_item.name, "Pizza");
    assert_eq!(menu_item.price, 100);
}

#[test]
fn test_create_order() {
    let mut state = setup_contract();
    restaurant_with_pizza(&mut state);
    let res = create_order(
        &mut state,
        "customer",
        &coins(200, "uxion"),
        "restaurant_creator".to_string(),
        pizza_order(),
    )
    .unwrap();
    assert_eq!(res.messages.len(), 0);
    assert_eq!(
        attrs(&res),
        vec![
            attr("action", "create_order"),
            attr("order_id", "order_1"),
            attr("restaurant_id", "restaurant_creator"),
            attr("total", "200"),
        ]
    );
    let order = state.orders.get("order_1").unwrap();
    assert_eq!(order.customer, "customer");
    assert_eq!(order.total, 200);
}

#[test]
fn test_accept_order() {
    let mut state = setup_contract();
    restaurant_with_pizza(&mut state);
    create_order(
        &mut state,
        "customer",
        &coins(200, "uxion"),
        "restaurant_creator".to_string(),
        pizza_order(),
    )
    .unwrap();
    let res = accept_order(&mut state, "creator", "order_1").unwrap();
    assert_eq!(res.messages.len(), 0);
    assert_eq!(attrs(&res), vec![attr("action", "accept_order"), attr("order_id", "order_1")]);
    assert_eq!(state.orders.get("order_1").unwrap().status, OrderStatus::Accepted);
}

#[test]
fn tests_test_register_rider() {
    let mut state = setup_contract();
    let res = register_rider(&mut state, "rider", "Test Rider".to_string());
    assert_eq!(res.messages.len(), 0);
    assert_eq!(
        attrs(&res),
        vec![attr("action", "register_rider"), attr("rider_id", "rider_rider")]
    );
    let rider = state.riders.get("rider_rider").unwrap();
    assert_eq!(rider.name, "Test Rider");
    assert_eq!(rider.wallet, "rider");
}

#[test]
fn test_assign_rider() {
    let mut state = setup_contract();
    restaurant_with_pizza(&mut state);
    create_order(
        &mut state,
        "customer",
        &coins(200, "uxion"),
        "restaurant_creator".to_string(),
        pizza_order(),
    )
    .unwrap();
    accept_order(&mut state, "creator", "order_1").unwrap();
    register_rider(&mut state, "rider", "Test Rider".to_string());
    let res = assign_rider(&mut state, "order_1", "rider_rider".to_string()).unwrap();
    assert_eq!(res.messages.len(), 0);
    assert_eq!(
        attrs(&res),
        vec![
            attr("action", "assign_rider"),
            attr("order_id", "order_1"),
            attr("rider_id", "rider_rider"),
        ]
    );
    let order = state.orders.get("order_1").unwrap();
    assert_eq!(order.status, OrderStatus::InDelivery);
    assert_eq!(order.rider_id, Some("rider_rider".to_string()));
}

#[test]
fn test_confirm_delivery() {
    let mut state = setup_contract();
    restaurant_with_pizza(&mut state);
    create_order(
        &mut state,
        "customer",
        &coins(200, "uxion"),
        "restaurant_creator".to_string(),
        pizza_order(),
    )
    .unwrap();
    accept_order(&mut state, "creator", "order_1").unwrap();
    register_rider(&mut state, "rider", "Test Rider".to_string());
    assign_rider(&mut state, "order_1", "rider_rider".to_string()).unwrap();
    let res = confirm_delivery(&mut state, "rider", "order_1", 200).unwrap();
    assert_eq!(res.messages.len(), 2);
    assert_eq!(
        attrs(&res),
        vec![
            attr("action", "confirm_delivery"),
            attr("order_id", "order_1"),
            attr("status", "Completed"),
        ]
    );
    assert_eq!(state.orders.get("order_1").unwrap().status, OrderStatus::Completed);
}

#[test]
fn test_get_restaurants() {
    let mut state = setup_contract();
    register_restaurant(
        &mut state,
        "creator",
        "Test Restaurant".to_string(),
        "https://test.com".to_string(),
        "res".to_string(),
    );
    let restaurants = get_all_restaurants(&state).restaurants;
    assert_eq!(restaurants.len(), 1);
    assert_eq!(restaurants[0].name, "Test Restaurant");
}

#[test]
fn test_get_multiple_restaurants() {
    let mut state = setup_contract();
    let restaurants = vec![
        ("owner_1", "Restaurant One", "https://test.com/restaurant1"),
        ("owner_2", "Restaurant Two", "https://test.com/restaurant2"),
        ("owner_3", "Restaurant Three", "https://test.com/restaurant3"),
    ];
    for (owner, name, image_uri) in restaurants {
        register_restaurant(
            &mut state,
            owner,
            name.to_string(),
            image_uri.to_string(),
            "q".to_string(),
        );
    }
    let retrieved = get_all_restaurants(&state).restaurants;
    assert_eq!(retrieved.len(), 3);
    assert_eq!(retrieved[0].name, "Restaurant One");
    assert_eq!(retrieved[1].name, "Restaurant Two");
    assert_eq!(retrieved[2].name, "Restaurant Three");
}

#[test]
fn test_get_a_restaurants_menu() {
    let mut state = setup_contract();
    register_restaurant(
        &mut state,
        "creator",
        "Test Restaurant".to_string(),
        "https://test.com".to_string(),
        "res".to_string(),
    );
    let res = add_menu_item(
        &mut state,
        "creator",
        "item_1".to_string(),
        "Pizza".to_string(),
        100,
        "https://test.com/pizza".to_string(),
    )
    .unwrap();
    assert_eq!(res.messages.len(), 0);
    assert_eq!(attrs(&res), vec![attr("action", "add_menu_item")]);
    let menu_item =
        state.menu_items.get("restaurant_creator").unwrap().get("item_1").unwrap();
    assert_eq!(menu_item.name, "Pizza");
    assert_eq!(menu_item.price, 100);
}

#[test]
fn test_get_rider() {
    let mut state = setup_contract();
    register_rider(&mut state, "rider", "Test Rider".to_string());
    let res = get_rider_by_address(&state, "rider");
    assert_eq!(res.rider.unwrap().id, "rider_rider");
}

#[test]
fn test_get_user_restaurants() {
    let mut state = setup_contract();
    register_restaurant(
        &mut state,
        "creator",
        "Test Restaurant".to_string(),
        "https://test.com".to_string(),
        "res".to_string(),
    );
    let res = get_user_restaurants(&state, "creator");
    assert_eq!(res.restaurants.len(), 1);
    assert_eq!(res.restaurants[0].id, "restaurant_creator");
}

#[test]
fn tests_test_get_orders() {
    let mut state = setup_contract();
    restaurant_with_pizza(&mut state);
    create_order(
        &mut state,
        "customer",
        &coins(200, "uxion"),
        "restaurant_creator".to_string(),
        pizza_order(),
    )
    .unwrap();
    let res = get_user_orders(&state, "customer");
    assert_eq!(res.orders.len(), 1);
    assert_eq!(res.orders[0].id, "order_1");
    assert_eq!(res.orders[0].customer, "customer");
    assert_eq!(res.orders[0].total, 200);
}

#[test]
fn test_update_menu_item() {
    let mut state = setup_contract();
    restaurant_with_pizza(&mut state);
    let res =
        update_menu_item(&mut state, "creator", "item_1", None, Some(120), Some(false), None)
            .unwrap();
    assert_eq!(
        attrs(&res),
        vec![
            attr("action", "update_menu_item"),
            attr("restaurant_id", "restaurant_creator"),
            attr("item_id", "item_1"),
        ]
    );
    let updated =
        state.menu_items.get("restaurant_creator").unwrap().get("item_1").unwrap();
    assert_eq!(updated.price, 120);
    assert_eq!(updated.available, false);
}

#[test]
fn test_delete_menu_item() {
    let mut state = setup_contract();
    restaurant_with_pizza(&mut state);
    let res = remove_menu_item(&mut state, "creator", "item_1").unwrap();
    assert_eq!(attrs(&res), vec![attr("action", "remove_menu_item")]);
}

#[test]
fn test_toggle_menu_item_availability() {
    let mut state = setup_contract();
    restaurant_with_pizza(&mut state);
    let res = toggle_menu_item_availability(&mut state, "creator", "item_1").unwrap();
    assert_eq!(
        attrs(&res),
        vec![
            attr("action", "toggle_menu_item_availability"),
            attr("restaurant_id", "restaurant_creator"),
            attr("item_id", "item_1"),
            attr("available", "false"),
        ]
    );
}

#[test]
fn unknown_restaurant_cannot_add_items() {
    let mut state = setup_contract();
    let err = add_menu_item(
        &mut state,
        "nobody",
        "item_1".to_string(),
        "Pizza".to_string(),
        100,
        "uri".to_string(),
    );
    assert_eq!(err.err(), Some(ContractError::RestaurantNotFound));
}
