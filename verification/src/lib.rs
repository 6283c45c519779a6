pub mod text;
pub mod node;
pub mod lexed;
pub mod error;
pub mod parser;
pub mod document;
pub mod command;
pub mod token_counter;
pub mod prompt;
pub mod model;
pub mod message;
pub mod context;
pub mod conversation;
pub mod chat_response;
pub mod config;
pub mod chat;
pub mod cli;
