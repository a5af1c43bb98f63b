//! The rules of a desktop program that puts one question to several language
//! models, local and online, and compares their answers.
pub mod catalog;
pub mod commands;
pub mod credentials;
pub mod engines;
pub mod in_flight;
pub mod json;
pub mod outcome;
pub mod router;
pub mod selection;
pub mod text;
pub mod throughput;
pub mod updater;
