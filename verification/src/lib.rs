pub mod text;
pub mod ext;
pub mod message;
pub mod utils;
pub mod session;
pub mod storage;
pub mod llm;
pub mod config;
pub mod channel;
pub mod binding;
pub mod skills;
pub mod agent;
pub mod attachment;
pub mod hooks;
pub mod tools;
