pub mod api;
pub mod codec;
pub mod db;
pub mod error;
pub mod ids;
pub mod models;
pub mod pagination;
pub mod rabbitmq;
pub mod strutil;
pub mod types;
pub mod worker;
