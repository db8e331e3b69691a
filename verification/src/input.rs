pub mod binding;
pub mod capture;
pub mod chord;
pub mod command;
pub mod condition;
pub mod dispatch;
pub mod kbd;
pub mod key;
pub mod persist;
