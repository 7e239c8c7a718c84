//! The attribute record under its short names.
//!
//! A notification attribute is the record most callers mean by "attribute";
//! this module offers it, and the identifiers, without the prefix.
use vstd::prelude::*;

pub use crate::attributes::app::AppAttributeID;

verus! {

/// The identifier of a notification attribute.
pub type AttributeID = crate::attributes::notification::NotificationAttributeID;

/// An attribute of a notification.
pub type Attribute = crate::attributes::NotificationAttribute;

} // verus!
