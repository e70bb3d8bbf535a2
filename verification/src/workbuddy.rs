//! WorkBuddy: sessions read from its event logs and its database.
pub mod mapper;
pub mod db_meta;
pub mod observer;
