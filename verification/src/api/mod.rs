pub mod jobs;
pub mod packages;
pub mod types;
