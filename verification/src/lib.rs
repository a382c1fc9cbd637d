pub mod analysis;
pub mod assoc;
pub mod cache;
pub mod client;
pub mod config;
pub mod ducats;
pub mod items;
pub mod listen;
pub mod models;
pub mod search;
pub mod seqs;
pub mod text;
