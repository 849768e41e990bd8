pub mod add;
pub mod edit;
pub mod frames;
pub mod log;
pub mod projects;
pub mod remove;
pub mod start;
pub mod status;
pub mod stop;
