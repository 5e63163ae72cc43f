pub mod job;
pub mod package;
pub mod scrapper_job;
