use vstd::prelude::*;

use crate::state::{Escrow, MenuItem, Order, OrderStatus, Restaurant, Rider};

verus! {

/// One line of an order: which menu item, and how many.
#[derive(Debug, Clone, PartialEq, Eq)]
pub struct OrderItem {
    pub item_id: String,
    pub quantity: u32,
}

pub enum MigrateMsg {
    ConvertToMultiOwner {},
    UpdateRidersAndUsers {},
}

/// The read-only requests the engine answers.
pub enum QueryMsg {
    GetRestaurants {},
    GetMenuItems { restaurant_id: String },
    GetOrdersFromARestaurant { restaurant_id: String },
    GetOrderDetails { id: String },
    GetAllSuccessfulOrderStatus { is_delivered: bool },
    GetOrderStatusById { order_id: String },
    GetEscrow { order_id: String },
    GetPlatformConfig {},
    GetRiderById { rider_id: String },
    GetRiderByAddress { riders_address: String },
    GetUserOwnedRestaurants { owner: String },
    GetUserOrders { address: String },
    GetLatestOrderId { address: String },
    GetOrderCost { restaurant_id: String, items: Vec<OrderItem> },
    GetOwners {},
    GetUser { id: String },
}

pub struct UserResponse {
    pub id: String,
    pub name: String,
    pub wallet: String,
    pub phone_number: String,
    pub is_registered: bool,
}

pub struct GetOwnersResponse {
    pub owners: Vec<String>,
}

pub struct GetOrderCostResponse {
    pub total: u128,
}

pub struct GetLatestOrderIdResponse {
    pub order_id: Option<String>,
}

pub struct GetRiderResponse {
    pub rider: Option<Rider>,
}

pub struct GetRestaurantsResponse {
    pub restaurants: Vec<Restaurant>,
}

pub struct GetUserRestaurantsResponse {
    pub restaurants: Vec<Restaurant>,
}

pub struct GetOrderStatus {
    pub order: Order,
}

pub struct GetOrderResponse {
    pub order: Order,
}

pub struct GetEscrowResponse {
    pub escrow: Escrow,
}

pub struct GetMenuItemsResponse {
    pub menu_items: Vec<MenuItem>,
}

pub struct GetOrdersResponse {
    pub orders: Vec<Order>,
}

pub struct GetUserOrdersResponse {
    pub orders: Vec<Order>,
}

pub struct GetOrderStatusResponse {
    pub order_id: String,
    pub status: OrderStatus,
}

pub struct PlatformConfigResponse {
    pub platform_name: String,
    pub platform_description: String,
    pub owner_address: String,
    /// In parts of `FEE_SCALE`.
    pub fee_percentage: u128,
    pub fee_address: String,
}

} // verus!
