pub mod bytes;
pub mod decimal;
pub mod frame;
pub mod keys;
pub mod chunk;
pub mod lock;
pub mod string;
pub mod acl;
pub mod config;
pub mod command;
pub mod reader;
pub mod gateway;
pub mod laws;
