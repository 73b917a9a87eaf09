//! A weighted book list: books with an author, a title and a weight, looked up
//! by position or title, sorted stably by a column, drawn at random in
//! proportion to their weights, and shown as a fixed-width table. The registry
//! of named lists keeps which lists exist and which one is the default.
pub mod book;
pub mod book_records;
pub mod cli;
pub mod config;
pub mod order;
pub mod search;
pub mod text;
