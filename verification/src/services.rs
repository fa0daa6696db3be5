pub mod data_service;
pub mod laws;
pub mod merge;
