//! The messages of the three ANCS characteristics.
//!
//! The Notification Source announces notifications as fixed records of eight
//! bytes. Through the Control Point the accessory asks for attributes, and
//! through the Data Source it receives them.
pub mod control_point;
pub mod data_source;
pub mod notification_source;
