//! Client library for a notification delivery API: derives a signed,
//! time-stamped bearer credential from a composite API key, and assembles
//! the JSON body, URL and headers of email and SMS notification requests.
//!
//! The transport itself (the HTTP POST) is left to the integrating
//! application: the dispatcher returns a fully prepared request instead
//! of issuing it.

pub mod auth;
pub mod b64;
pub mod client;
pub mod json;

pub use auth::{create_jwt, create_jwt_at, secret_key, service_id, NotifyError};
pub use client::{NotificationType, NotifyClient, PreparedRequest};
pub use json::{to_json_bytes, JsonValue, Member};
