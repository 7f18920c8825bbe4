pub mod text;
pub mod model;
pub mod domain_service;
pub mod protocol;
pub mod consensus;
pub mod uploads;
pub mod cli;
pub mod selection;
pub mod catalog;
pub mod report;
pub mod planning;
pub mod migration;
