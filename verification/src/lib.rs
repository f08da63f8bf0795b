pub mod config;
pub mod ip;
pub mod ip_fetcher;
pub mod namesilo;
pub mod poll;
pub mod text;
