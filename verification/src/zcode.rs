//! ZCode: sessions read from its two databases.
pub mod mapper;
pub mod observer;
