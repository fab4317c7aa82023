//! The menu: its entries and the table that routes their events.

pub mod builder;
pub mod router;
