pub mod text;
pub mod policy;
pub mod export;
pub mod model;
pub mod git;
pub mod json;
pub mod terminal;
pub mod store;
pub mod filter;
pub mod remote;
pub mod order;
pub mod history;
pub mod command;
pub mod score;
pub mod cost;
pub mod screens;
pub mod walk;
pub mod refresh;
