pub mod admin;
pub mod config;
pub mod desc;
pub mod matrix;
pub mod poll;
pub mod rp_error;
pub mod tally;
pub mod token;
pub mod vote;
pub mod voters;
