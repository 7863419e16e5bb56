pub mod event;
pub mod state;
pub mod calculator;
pub mod handler;
