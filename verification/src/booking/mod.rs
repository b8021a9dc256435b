//! The booking engine: calendar math and slot generation, hour-based pricing,
//! subscription coverage and shared quotas, request validation, and the
//! decisions of the booking data layer.

pub mod pricing;
pub mod store;
pub mod subscription;
pub mod subscription_sharing;
pub mod time;
pub mod validation;
