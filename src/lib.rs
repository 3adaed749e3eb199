//! An order and escrow engine for a food delivery marketplace: restaurants, menus,
//! riders, orders whose payment is held until delivery, and the platform's fee.

pub mod error;
pub mod execute;
pub mod ids;
pub mod laws;
pub mod msg;
pub mod pricing;
pub mod query;
pub mod state;
pub mod table;
