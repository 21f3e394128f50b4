//! What the library is for, stated over what comes in and what goes out.
pub mod cache;
pub mod config;
pub mod decision;
pub mod filter;
pub mod key;
pub mod reading;
pub mod request;
pub mod text;
pub mod views;
pub mod wire;
