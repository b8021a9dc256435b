//! Golfsetrið Akureyri: the booking engine, checkout rules, authentication
//! helpers, the WebSocket / embedding-client protocol code of the site and
//! the migration of its old data, with the rules stated as contracts and
//! proved.

pub mod admin;
pub mod auth;
pub mod booking;
pub mod cart;
pub mod checkout;
pub mod cli;
pub mod collections_api;
pub mod content;
pub mod digest;
pub mod giftcards;
pub mod json;
pub mod meta;
pub mod migrate;
pub mod mime;
pub mod shop;
pub mod table;
pub mod text;
pub mod vector;
pub mod ws;

use vstd::prelude::*;

verus! {

} // verus!
