pub mod config;
pub mod database;
pub mod domain;
pub mod message;
pub mod resolver;
pub mod text;
pub mod transfer;
pub mod zonefile;
pub mod zones;
