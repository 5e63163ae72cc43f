pub mod jobs;
pub mod packages;
pub mod scrapper_jobs;
pub mod types;

pub use types::Order;
