pub mod channel;
pub mod client;
pub mod config;
pub mod connection;
pub mod document;
pub mod expression;
pub mod joint;
pub mod json;
pub mod operation;
pub mod request;
pub mod server;
pub mod session;
pub mod storage;
pub mod text;
pub mod tree;
