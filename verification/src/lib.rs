pub mod actions;
pub mod dag;
pub mod dataflow;
pub mod error;
pub mod handlers;
pub mod inputs;
pub mod json;
pub mod node;
pub mod state_machine;
